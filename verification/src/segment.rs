//! Block segmentation: partitioning a byte stream into fixed-width,
//! zero-padded blocks, and the facts that relate the blocks back to the
//! original stream.

use vstd::prelude::*;
use vstd::arithmetic::div_mod::lemma_basic_div;
use vstd::arithmetic::div_mod::lemma_div_is_ordered;
use vstd::arithmetic::div_mod::lemma_div_multiples_vanish;
use vstd::arithmetic::div_mod::lemma_div_multiples_vanish_fancy;
use vstd::arithmetic::div_mod::lemma_div_plus_one;
use vstd::arithmetic::div_mod::lemma_mod_self_0;
use vstd::arithmetic::div_mod::lemma_mod_sub_multiples_vanish;
use vstd::arithmetic::div_mod::lemma_small_mod;

verus! {

/// Number of blocks that a stream of `n` bytes occupies at block width `w`:
/// the ceiling of `n / w`, with zero blocks for an empty stream.
pub open spec fn block_count(n: int, w: int) -> int
    recommends
        w > 0,
        n >= 0,
{
    (n + w - 1) / w
}

/// Number of zero bytes appended to fill the final block: `(w - n % w) % w`.
pub open spec fn pad_len(n: int, w: int) -> int
    recommends
        w > 0,
        n >= 0,
{
    (w - n % w) % w
}

/// The stream followed by exactly the zero bytes that segmentation appends.
pub open spec fn spec_zero_pad(b: Seq<u8>, w: int) -> Seq<u8>
    recommends
        w > 0,
{
    b + Seq::new(pad_len(b.len() as int, w) as nat, |j: int| 0u8)
}

/// Block `i` of the stream `b` at width `w`: bytes `i*w .. i*w + w`,
/// with zero bytes where the stream has ended.
pub open spec fn spec_block_at(b: Seq<u8>, w: int, i: int) -> Seq<u8>
    recommends
        w > 0,
        i >= 0,
{
    Seq::new(w as nat, |j: int| if i * w + j < b.len() { b[i * w + j] } else { 0u8 })
}

/// The ordered sequence of blocks of `b` at width `w`.
pub open spec fn spec_segment(b: Seq<u8>, w: int) -> Seq<Seq<u8>>
    recommends
        w > 0,
{
    Seq::new(block_count(b.len() as int, w) as nat, |i: int| spec_block_at(b, w, i))
}

/// Concatenation of a sequence of blocks, in order.
pub open spec fn concat_blocks(bs: Seq<Seq<u8>>) -> Seq<u8>
    decreases bs.len(),
{
    if bs.len() == 0 {
        Seq::empty()
    } else {
        bs[0] + concat_blocks(bs.drop_first())
    }
}

/// A count `k` of whole blocks that covers `n` bytes, but whose last block
/// started before byte `n`, is exactly `block_count(n, w)`.
proof fn lemma_block_count_from_bounds(n: int, w: int, k: int)
    requires
        w > 0,
        n >= 0,
        k >= 0,
        n <= k * w,
        k * w < n + w,
    ensures
        k == block_count(n, w),
{
    lemma_div_multiples_vanish_fancy(k, w - 1, w);
    lemma_div_is_ordered(n + w - 1, w * k + (w - 1), w);
    lemma_div_multiples_vanish(k, w);
    lemma_div_is_ordered(w * k, n + w - 1, w);
}

/// Appending one more block to a prefix extends its concatenation by
/// exactly that block.
pub proof fn lemma_concat_take_step(bs: Seq<Seq<u8>>, k: int)
    requires
        0 <= k < bs.len(),
    ensures
        concat_blocks(bs.take(k + 1)) == concat_blocks(bs.take(k)) + bs[k],
    decreases k,
{
    if k == 0 {
        assert(bs.take(1).drop_first() =~= Seq::<Seq<u8>>::empty());
        assert(bs.take(0) =~= Seq::<Seq<u8>>::empty());
        assert(concat_blocks(bs.take(1)) =~= concat_blocks(bs.take(0)) + bs[0]);
    } else {
        let t = bs.drop_first();
        lemma_concat_take_step(t, k - 1);
        assert(bs.take(k + 1).drop_first() =~= t.take(k));
        assert(bs.take(k).drop_first() =~= t.take(k - 1));
        assert(concat_blocks(bs.take(k + 1)) =~= concat_blocks(bs.take(k)) + bs[k]);
    }
}

/// For a stream of at least one full block, the head of the segmentation is
/// the first block and the tail is the segmentation of the rest.
proof fn lemma_segment_drop(b: Seq<u8>, w: int)
    requires
        w > 0,
        b.len() >= w,
    ensures
        spec_segment(b, w).len() == 1 + spec_segment(b.skip(w), w).len(),
        spec_segment(b, w)[0] == spec_block_at(b, w, 0),
        spec_segment(b, w).drop_first() == spec_segment(b.skip(w), w),
{
    let n = b.len() as int;
    lemma_div_plus_one(n - 1, w);
    assert forall|i: int| 0 <= i < spec_segment(b.skip(w), w).len() implies spec_segment(
        b,
        w,
    ).drop_first()[i] == spec_segment(b.skip(w), w)[i] by {
        assert((i + 1) * w == i * w + w) by (nonlinear_arith);
        assert(spec_block_at(b, w, i + 1) =~= spec_block_at(b.skip(w), w, i));
    }
    assert(spec_segment(b, w).drop_first() =~= spec_segment(b.skip(w), w));
}

/// The blocks of `b` at width `w`, concatenated in order, are exactly `b`
/// followed by `(w - len(b) % w) % w` zero bytes, and there are
/// `block_count(len(b), w)` of them.
pub proof fn lemma_segment_concat(b: Seq<u8>, w: int)
    requires
        w > 0,
    ensures
        spec_segment(b, w).len() == block_count(b.len() as int, w),
        concat_blocks(spec_segment(b, w)) == spec_zero_pad(b, w),
    decreases b.len(),
{
    let n = b.len() as int;
    if n == 0 {
        lemma_basic_div(w - 1, w);
        lemma_small_mod(0nat, w as nat);
        lemma_mod_self_0(w);
        assert(spec_segment(b, w).len() == 0);
        assert(concat_blocks(spec_segment(b, w)) =~= spec_zero_pad(b, w));
    } else if n <= w {
        lemma_div_multiples_vanish_fancy(1, n - 1, w);
        assert(w * 1 + (n - 1) == n + w - 1);
        assert(spec_segment(b, w).len() == 1);
        if n < w {
            lemma_small_mod(n as nat, w as nat);
            lemma_small_mod((w - n) as nat, w as nat);
        } else {
            lemma_mod_self_0(w);
        }
        assert(spec_segment(b, w).drop_first() =~= Seq::<Seq<u8>>::empty());
        assert(concat_blocks(Seq::<Seq<u8>>::empty()) =~= Seq::<u8>::empty());
        assert(concat_blocks(spec_segment(b, w)) =~= spec_block_at(b, w, 0));
        assert(spec_block_at(b, w, 0) =~= spec_zero_pad(b, w));
    } else {
        lemma_segment_drop(b, w);
        lemma_segment_concat(b.skip(w), w);
        lemma_mod_sub_multiples_vanish(n, w);
        assert(spec_block_at(b, w, 0) =~= b.take(w));
        assert(concat_blocks(spec_segment(b, w)) == b.take(w) + spec_zero_pad(b.skip(w), w));
        assert(b.take(w) + spec_zero_pad(b.skip(w), w) =~= spec_zero_pad(b, w));
    }
}

/// Segmentation inverts concatenation: a sequence of blocks, each exactly
/// `w` bytes wide, is recovered unchanged by segmenting its concatenation.
pub proof fn lemma_segment_of_exact_blocks(bs: Seq<Seq<u8>>, w: int)
    requires
        w > 0,
        forall|i: int| 0 <= i < bs.len() ==> (#[trigger] bs[i]).len() == w,
    ensures
        concat_blocks(bs).len() == bs.len() * w,
        spec_segment(concat_blocks(bs), w) == bs,
    decreases bs.len(),
{
    let c = concat_blocks(bs);
    if bs.len() == 0 {
        lemma_basic_div(w - 1, w);
        assert(c.len() == bs.len() * w) by (nonlinear_arith)
            requires
                c.len() == 0,
                bs.len() == 0,
        ;
        assert(spec_segment(c, w) =~= bs);
    } else {
        let t = bs.drop_first();
        lemma_segment_of_exact_blocks(t, w);
        assert(c.len() == w + t.len() * w);
        assert(w + t.len() * w == bs.len() * w) by (nonlinear_arith)
            requires
                bs.len() == t.len() + 1,
        ;
        assert(t.len() * w >= 0) by (nonlinear_arith)
            requires
                w > 0,
        ;
        lemma_segment_drop(c, w);
        assert(c.skip(w) =~= concat_blocks(t));
        assert(spec_segment(c, w)[0] =~= bs[0]);
        assert(spec_segment(c, w).len() == bs.len());
        assert forall|i: int| 1 <= i < bs.len() implies spec_segment(c, w)[i] == bs[i] by {
            assert(spec_segment(c, w)[i] == spec_segment(c, w).drop_first()[i - 1]);
            assert(spec_segment(c, w).drop_first()[i - 1] == t[i - 1]);
        }
        assert(spec_segment(c, w) =~= bs);
    }
}

/// Splits `data` into blocks of exactly `width` bytes, in order, starting at
/// offset zero; the final block, if incomplete, is padded on the right with
/// zero bytes.  An empty input yields zero blocks; an input whose length is
/// an exact multiple of `width` yields no extra trailing block.
pub fn get_blocks(data: &[u8], width: usize) -> (blocks: Vec<Vec<u8>>)
    requires
        width > 0,
        data@.len() + width <= usize::MAX,
    ensures
        blocks@.len() == spec_segment(data@, width as int).len(),
        forall|i: int|
            0 <= i < blocks@.len() ==> blocks@[i]@ == spec_segment(data@, width as int)[i],
{
    let n = data.len();
    let mut blocks: Vec<Vec<u8>> = Vec::new();
    let mut start: usize = 0;
    proof {
        assert(blocks@.len() * width == 0) by (nonlinear_arith)
            requires
                blocks@.len() == 0,
        ;
    }
    while start < n
        invariant
            width > 0,
            n == data@.len(),
            n + width <= usize::MAX,
            start == blocks@.len() * width,
            start < n + width,
            forall|i: int|
                0 <= i < blocks@.len() ==> blocks@[i]@ == spec_block_at(
                    data@,
                    width as int,
                    i,
                ),
        decreases n + width - start,
    {
        let ghost bi = blocks@.len() as int;
        let mut block: Vec<u8> = Vec::new();
        let mut j: usize = 0;
        while j < width
            invariant
                width > 0,
                n == data@.len(),
                start < n,
                start + width <= usize::MAX,
                j <= width,
                start == bi * width,
                block@.len() == j,
                forall|k: int|
                    0 <= k < j ==> block@[k] == spec_block_at(data@, width as int, bi)[k],
            decreases width - j,
        {
            let idx = start + j;
            if idx < n {
                block.push(data[idx]);
            } else {
                block.push(0u8);
            }
            j = j + 1;
        }
        assert(block@ =~= spec_block_at(data@, width as int, bi));
        blocks.push(block);
        proof {
            assert((bi + 1) * width == bi * width + width) by (nonlinear_arith);
        }
        start = start + width;
    }
    proof {
        lemma_block_count_from_bounds(n as int, width as int, blocks@.len() as int);
    }
    blocks
}

} // verus!
