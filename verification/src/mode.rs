//! The two directions the pipeline can run in, parsed case-insensitively
//! from the word the user supplies.

use vstd::prelude::*;

verus! {

/// The direction of a run.
#[derive(Debug, Clone, Copy, PartialEq, Eq, Structural)]
pub enum Mode {
    Encrypt,
    Decrypt,
}

/// An ASCII uppercase letter folded to lowercase; any other byte unchanged.
pub open spec fn ascii_lower(c: u8) -> u8 {
    if 65 <= c <= 90 {
        (c + 32) as u8
    } else {
        c
    }
}

/// A byte stream folded to ASCII lowercase.
pub open spec fn ascii_lower_seq(s: Seq<u8>) -> Seq<u8> {
    Seq::new(s.len(), |i: int| ascii_lower(s[i]))
}

/// The bytes of the word that selects encryption.
pub open spec fn encrypt_word() -> Seq<u8> {
    seq![101u8, 110u8, 99u8, 114u8, 121u8, 112u8, 116u8]
}

/// The bytes of the word that selects decryption.
pub open spec fn decrypt_word() -> Seq<u8> {
    seq![100u8, 101u8, 99u8, 114u8, 121u8, 112u8, 116u8]
}

/// Whether `s`, folded to ASCII lowercase, is exactly `word`.
fn matches_word(s: &[u8], word: &[u8]) -> (r: bool)
    ensures
        r <==> ascii_lower_seq(s@) == word@,
{
    if s.len() != word.len() {
        return false;
    }
    let mut i: usize = 0;
    while i < s.len()
        invariant
            s@.len() == word@.len(),
            i <= s@.len(),
            forall|k: int| 0 <= k < i ==> ascii_lower(s@[k]) == word@[k],
        decreases s@.len() - i,
    {
        let c = s[i];
        let folded = if 65 <= c && c <= 90 {
            c + 32
        } else {
            c
        };
        if folded != word[i] {
            assert(ascii_lower_seq(s@)[i as int] != word@[i as int]);
            return false;
        }
        i = i + 1;
    }
    assert(ascii_lower_seq(s@) =~= word@);
    true
}

impl Mode {
    /// Parses the mode word, ignoring ASCII case: `encrypt` selects
    /// encryption, `decrypt` selects decryption, anything else is refused.
    pub fn from_str(s: &[u8]) -> (r: Option<Mode>)
        ensures
            r == Some(Mode::Encrypt) <==> ascii_lower_seq(s@) == encrypt_word(),
            r == Some(Mode::Decrypt) <==> ascii_lower_seq(s@) == decrypt_word(),
            r is None <==> ascii_lower_seq(s@) != encrypt_word() && ascii_lower_seq(s@)
                != decrypt_word(),
    {
        let enc: [u8; 7] = [101, 110, 99, 114, 121, 112, 116];
        let dec: [u8; 7] = [100, 101, 99, 114, 121, 112, 116];
        if matches_word(s, &enc) {
            Some(Mode::Encrypt)
        } else if matches_word(s, &dec) {
            Some(Mode::Decrypt)
        } else {
            None
        }
    }
}

} // verus!
