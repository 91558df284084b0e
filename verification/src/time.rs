//! Timestamps with a time-zone offset.
//!
//! An instant is a whole number of seconds since the Unix epoch; the zone
//! offset, in seconds, is read from a time-zone setting that holds a signed
//! decimal number, any other or missing setting meaning UTC.

use vstd::prelude::*;

verus! {

/// An instant paired with the zone offset it is displayed in.
#[derive(Debug, Clone, Copy, PartialEq, Eq, Structural)]
pub struct DateTime {
    /// Seconds since the Unix epoch.
    pub unix_seconds: i64,
    /// Zone offset from UTC, in seconds.
    pub offset_seconds: i32,
}

/// A decimal digit.
pub open spec fn is_digit(c: char) -> bool {
    48 <= c as u32 <= 57
}

/// The value of a decimal digit.
pub open spec fn digit_val(c: char) -> int {
    c as u32 - 48
}

/// The value of a sequence of decimal digits, most significant first.
pub open spec fn digits_val(s: Seq<char>) -> int
    decreases s.len(),
{
    if s.len() == 0 {
        0
    } else {
        digits_val(s.drop_last()) * 10 + digit_val(s.last())
    }
}

/// The digits of `s` once a single leading sign is dropped.
pub open spec fn sign_skip(s: Seq<char>) -> Seq<char> {
    if s[0] == '-' || s[0] == '+' {
        s.skip(1)
    } else {
        s
    }
}

/// Every character a decimal digit.
pub open spec fn all_digits(s: Seq<char>) -> bool {
    forall|k: int| 0 <= k < s.len() ==> is_digit(#[trigger] s[k])
}

/// The reading of `s` as a signed decimal number: an optional single sign,
/// then at least one digit and nothing else, the value fitting a 32-bit
/// signed integer; `None` when any of that fails.
pub open spec fn spec_parse_i32(s: Seq<char>) -> Option<int> {
    if s.len() == 0 {
        None
    } else {
        let ds = sign_skip(s);
        if ds.len() == 0 || !all_digits(ds) {
            None
        } else {
            let v = if s[0] == '-' {
                -digits_val(ds)
            } else {
                digits_val(ds)
            };
            if -0x8000_0000 <= v <= 0x7fff_ffff {
                Some(v)
            } else {
                None
            }
        }
    }
}

proof fn lemma_digits_nonneg(s: Seq<char>)
    requires
        all_digits(s),
    ensures
        digits_val(s) >= 0,
    decreases s.len(),
{
    if s.len() > 0 {
        assert forall|k: int| 0 <= k < s.drop_last().len() implies is_digit(
            #[trigger] s.drop_last()[k],
        ) by {
            assert(s.drop_last()[k] == s[k]);
        }
        lemma_digits_nonneg(s.drop_last());
        assert(is_digit(s.last()));
    }
}

/// Appending digits never shrinks the value.
proof fn lemma_digits_prefix_le(s: Seq<char>, m: int)
    requires
        0 <= m <= s.len(),
        all_digits(s),
    ensures
        digits_val(s.take(m)) <= digits_val(s),
    decreases s.len() - m,
{
    if m == s.len() {
        assert(s.take(m) =~= s);
    } else {
        assert forall|k: int| 0 <= k < s.take(m).len() implies is_digit(
            #[trigger] s.take(m)[k],
        ) by {
            assert(s.take(m)[k] == s[k]);
        }
        lemma_digits_nonneg(s.take(m));
        assert(s.take(m + 1).drop_last() =~= s.take(m));
        assert(s.take(m + 1).last() == s[m]);
        assert(digits_val(s.take(m + 1)) == digits_val(s.take(m)) * 10 + digit_val(s[m]));
        assert(is_digit(s[m]));
        lemma_digits_prefix_le(s, m + 1);
    }
}

/// Reads a string as a signed 32-bit decimal number: an optional single
/// sign, then at least one digit and nothing else, the value in range.
pub fn parse_i32(s: &str) -> (r: Option<i32>)
    ensures
        match r {
            Some(v) => spec_parse_i32(s@) == Some(v as int),
            None => spec_parse_i32(s@) is None,
        },
{
    let n = s.unicode_len();
    if n == 0 {
        return None;
    }
    let c0 = s.get_char(0);
    let neg = c0 == '-';
    let start: usize = if c0 == '-' || c0 == '+' {
        1
    } else {
        0
    };
    let ghost ds = sign_skip(s@);
    if n == start {
        return None;
    }
    let mut acc: i64 = 0;
    let mut i: usize = start;
    while i < n
        invariant
            start <= i <= n,
            n == s@.len(),
            start == 0 || start == 1,
            start == 1 <==> (s@[0] == '-' || s@[0] == '+'),
            n > start,
            neg == (s@[0] == '-'),
            ds == sign_skip(s@),
            ds.len() == n - start,
            forall|k: int| 0 <= k < ds.len() ==> ds[k] == s@[k + start],
            forall|k: int| 0 <= k < i - start ==> is_digit(#[trigger] ds[k]),
            0 <= acc <= 0x8000_0000,
            acc == digits_val(ds.take(i - start)),
        decreases n - i,
    {
        let c = s.get_char(i);
        let cv = c as u32;
        if cv < 48 || cv > 57 {
            proof {
                assert(ds[i - start] == s@[i as int]);
                assert(!is_digit(ds[i - start]));
                assert(!all_digits(sign_skip(s@)));
            }
            return None;
        }
        let d: i64 = (cv - 48) as i64;
        let next: i64 = acc * 10 + d;
        proof {
            assert(ds.take(i - start + 1).drop_last() =~= ds.take(i - start));
            assert(ds.take(i - start + 1).last() == ds[i - start]);
            assert(ds[i - start] == s@[i as int]);
            assert(digits_val(ds.take(i - start + 1)) == acc * 10 + digit_val(ds[i - start]));
        }
        if next > 0x8000_0000 {
            proof {
                if spec_parse_i32(s@) is Some {
                    assert(all_digits(sign_skip(s@)));
                    lemma_digits_prefix_le(ds, i - start + 1);
                    assert(digits_val(ds) >= next);
                    assert(false);
                }
            }
            return None;
        }
        acc = next;
        i = i + 1;
    }
    proof {
        assert(ds.take(i - start) =~= ds);
        assert(all_digits(sign_skip(s@)));
    }
    if neg {
        let v: i64 = -acc;
        proof {
            assert(spec_parse_i32(s@) == Some(-digits_val(ds)));
        }
        Some(v as i32)
    } else {
        if acc > 0x7fff_ffff {
            proof {
                assert(digits_val(ds) == 0x8000_0000);
            }
            return None;
        }
        Some(acc as i32)
    }
}

/// The zone offset, in seconds, a time-zone setting selects: its value as
/// a signed decimal number, or zero when it is absent or unreadable.
pub open spec fn spec_offset(tz: Option<Seq<char>>) -> int {
    match tz {
        Some(s) => match spec_parse_i32(s) {
            Some(v) => v,
            None => 0,
        },
        None => 0,
    }
}

/// Reads the zone offset from a time-zone setting.
pub fn offset(tz: Option<&String>) -> (r: i32)
    ensures
        r as int == spec_offset(
            match tz {
                Some(s) => Some(s@),
                None => None,
            },
        ),
{
    match tz {
        Some(t) => match parse_i32(t.as_str()) {
            Some(v) => v,
            None => 0,
        },
        None => 0,
    }
}

/// The instant `ts` seconds after the Unix epoch, in UTC.
pub fn from_timestamp_utc(ts: i64) -> (d: DateTime)
    ensures
        d.unix_seconds == ts,
        d.offset_seconds == 0,
{
    DateTime { unix_seconds: ts, offset_seconds: 0 }
}

/// The instant `ts` seconds after the Unix epoch, in the zone the
/// time-zone setting selects.
pub fn from_timestamp(ts: i64, tz: Option<&String>) -> (d: DateTime)
    ensures
        d.unix_seconds == ts,
        d.offset_seconds as int == spec_offset(
            match tz {
                Some(s) => Some(s@),
                None => None,
            },
        ),
{
    DateTime { unix_seconds: ts, offset_seconds: offset(tz) }
}

/// The current instant, from the caller's clock reading in whole seconds
/// since the Unix epoch, in the zone the time-zone setting selects.
pub fn now(realtime_seconds: i64, tz: Option<&String>) -> (d: DateTime)
    ensures
        d.unix_seconds == realtime_seconds,
        d.offset_seconds as int == spec_offset(
            match tz {
                Some(s) => Some(s@),
                None => None,
            },
        ),
{
    from_timestamp(realtime_seconds, tz)
}

} // verus!
