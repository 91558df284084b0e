//! Verified helpers on string slices: equality and suffix tests over the
//! character view of a `&str`.

use vstd::prelude::*;
use vstd::string::*;
use vstd::utf8::*;

verus! {

/// Byte-for-byte equality of two byte slices.
pub fn bytes_eq(a: &[u8], b: &[u8]) -> (r: bool)
    ensures
        r == (a@ == b@),
{
    if a.len() != b.len() {
        return false;
    }
    let mut i: usize = 0;
    while i < a.len()
        invariant
            a@.len() == b@.len(),
            i <= a@.len(),
            forall|k: int| 0 <= k < i ==> a@[k] == b@[k],
        decreases a@.len() - i,
    {
        if a[i] != b[i] {
            return false;
        }
        i = i + 1;
    }
    proof {
        assert(a@ =~= b@);
    }
    true
}

/// Equality of two string slices, decided on their UTF-8 bytes.
pub fn str_eq(a: &str, b: &str) -> (r: bool)
    ensures
        r == (a@ == b@),
{
    let r = bytes_eq(a.as_bytes(), b.as_bytes());
    proof {
        if a.spec_bytes() == b.spec_bytes() {
            encode_utf8_decode_utf8(a@);
            encode_utf8_decode_utf8(b@);
        }
    }
    r
}

/// True exactly when `p` ends in the four characters `.txt`.
pub open spec fn spec_ends_txt(p: Seq<char>) -> bool {
    &&& p.len() >= 4
    &&& p[p.len() - 4] == '.'
    &&& p[p.len() - 3] == 't'
    &&& p[p.len() - 2] == 'x'
    &&& p[p.len() - 1] == 't'
}

/// Decides whether a path names a text asset, that is, ends in `.txt`.
pub fn ends_txt(p: &str) -> (r: bool)
    ensures
        r == spec_ends_txt(p@),
{
    let n = p.unicode_len();
    if n < 4 {
        return false;
    }
    let c0 = p.get_char(n - 4);
    let c1 = p.get_char(n - 3);
    let c2 = p.get_char(n - 2);
    let c3 = p.get_char(n - 1);
    c0 == '.' && c1 == 't' && c2 == 'x' && c3 == 't'
}

} // verus!
