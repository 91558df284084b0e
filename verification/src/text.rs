//! The file materializer's text handling: detecting well-formed UTF-8 and
//! substituting the build version string for every occurrence of the
//! placeholder token `{x.x.x}` in text assets.

use vstd::prelude::*;
use vstd::slice::{slice_subrange, slice_to_vec};
use vstd::utf8::valid_utf8;
use crate::strutil::{bytes_eq, spec_ends_txt, ends_txt};

verus! {

/// The placeholder token `{x.x.x}` as its seven ASCII bytes.
pub open spec fn token() -> Seq<u8> {
    seq![123u8, 120u8, 46u8, 120u8, 46u8, 120u8, 125u8]
}

/// Relies on core::str::from_utf8: it returns `Ok` exactly when the bytes
/// are well-formed UTF-8, which vstd's `valid_utf8` states.
#[verifier::external_body]
fn utf8_ok(bytes: &[u8]) -> (r: bool)
    ensures
        r == valid_utf8(bytes@),
{
    core::str::from_utf8(bytes).is_ok()
}

/// `s` with every occurrence of `pat` replaced by `sub`, scanning left to
/// right without overlap; an empty pattern replaces nothing.
pub open spec fn spec_replace(s: Seq<u8>, pat: Seq<u8>, sub: Seq<u8>) -> Seq<u8>
    decreases s.len(),
{
    if pat.len() == 0 || s.len() < pat.len() {
        s
    } else if s.take(pat.len() as int) == pat {
        sub + spec_replace(s.skip(pat.len() as int), pat, sub)
    } else {
        seq![s[0]] + spec_replace(s.skip(1), pat, sub)
    }
}

/// True when `pat` occurs in `s` starting at index `i`.
fn window_match(s: &[u8], i: usize, pat: &[u8]) -> (r: bool)
    requires
        i + pat@.len() <= s@.len(),
    ensures
        r == (s@.subrange(i as int, i + pat@.len()) == pat@),
{
    let _n = s.len();
    let w = slice_subrange(s, i, i + pat.len());
    bytes_eq(w, pat)
}

/// Replaces every occurrence of `pat` in `s` by `sub`, scanning left to
/// right without overlap.
pub fn replace_bytes(s: &[u8], pat: &[u8], sub: &[u8]) -> (r: Vec<u8>)
    ensures
        r@ == spec_replace(s@, pat@, sub@),
{
    if pat.len() == 0 {
        return slice_to_vec(s);
    }
    let mut out: Vec<u8> = Vec::new();
    let mut i: usize = 0;
    proof {
        assert(s@.skip(0) =~= s@);
        assert(Seq::<u8>::empty() + spec_replace(s@, pat@, sub@) =~= spec_replace(s@, pat@, sub@));
    }
    while i < s.len()
        invariant
            pat@.len() >= 1,
            i <= s@.len(),
            out@ + spec_replace(s@.skip(i as int), pat@, sub@) == spec_replace(s@, pat@, sub@),
        decreases s@.len() - i,
    {
        let ghost prev = out@;
        if pat.len() <= s.len() - i && window_match(s, i, pat) {
            let mut k: usize = 0;
            while k < sub.len()
                invariant
                    k <= sub@.len(),
                    out@ == prev + sub@.take(k as int),
                decreases sub@.len() - k,
            {
                out.push(sub[k]);
                k = k + 1;
                proof {
                    assert(out@ =~= prev + sub@.take(k as int));
                }
            }
            proof {
                assert(out@ =~= prev + sub@);
                let rest = s@.skip(i as int);
                assert(rest.take(pat@.len() as int) =~= s@.subrange(i as int, i + pat@.len()));
                assert(rest.skip(pat@.len() as int) =~= s@.skip(i + pat@.len()));
                assert(spec_replace(rest, pat@, sub@) == sub@ + spec_replace(
                    s@.skip(i + pat@.len()),
                    pat@,
                    sub@,
                ));
                assert(out@ + spec_replace(s@.skip(i + pat@.len()), pat@, sub@) =~= prev
                    + spec_replace(rest, pat@, sub@));
            }
            i = i + pat.len();
        } else {
            out.push(s[i]);
            proof {
                let rest = s@.skip(i as int);
                if rest.len() < pat@.len() {
                    assert(spec_replace(rest, pat@, sub@) == rest);
                    assert(spec_replace(s@.skip(i + 1), pat@, sub@) == s@.skip(i + 1));
                    assert(rest =~= seq![s@[i as int]] + s@.skip(i + 1));
                } else {
                    assert(rest.take(pat@.len() as int) =~= s@.subrange(i as int, i + pat@.len()));
                    assert(rest.take(pat@.len() as int) != pat@);
                    assert(rest.skip(1) =~= s@.skip(i + 1));
                    assert(spec_replace(rest, pat@, sub@) == seq![rest[0]] + spec_replace(
                        s@.skip(i + 1),
                        pat@,
                        sub@,
                    ));
                }
                assert(out@ + spec_replace(s@.skip(i + 1), pat@, sub@) =~= prev + spec_replace(
                    rest,
                    pat@,
                    sub@,
                ));
            }
            i = i + 1;
        }
    }
    proof {
        assert(s@.skip(i as int) =~= Seq::<u8>::empty());
        assert(spec_replace(s@.skip(i as int), pat@, sub@) == s@.skip(i as int));
        assert(out@ =~= out@ + s@.skip(i as int));
    }
    out
}

/// The bytes written for an asset: a `.txt` asset that is well-formed UTF-8
/// has every `{x.x.x}` token replaced by the version string; any other
/// content is written verbatim.
pub open spec fn spec_materialized(p: Seq<char>, content: Seq<u8>, version: Seq<u8>) -> Seq<u8> {
    if spec_ends_txt(p) && valid_utf8(content) {
        spec_replace(content, token(), version)
    } else {
        content
    }
}

/// Produces the bytes to write for the asset at `path`.
pub fn materialize(path: &str, content: &[u8], version: &[u8]) -> (r: Vec<u8>)
    ensures
        r@ == spec_materialized(path@, content@, version@),
{
    if ends_txt(path) && utf8_ok(content) {
        let mut pat: Vec<u8> = Vec::new();
        pat.push(123);
        pat.push(120);
        pat.push(46);
        pat.push(120);
        pat.push(46);
        pat.push(120);
        pat.push(125);
        proof {
            assert(pat@ =~= token());
        }
        replace_bytes(content, pat.as_slice(), version)
    } else {
        slice_to_vec(content)
    }
}

} // verus!
