//! Parsing of configuration paths: a configuration entry lives at
//! `.../{component}/v{version}/{entry}`, and the version is an unsigned
//! decimal numeral.

use vstd::prelude::*;

use crate::serialize::all_digit_chars;
use crate::serialize::is_digit_char;

verus! {

/// The numeric value of a decimal digit character.
pub open spec fn digit_val(c: char) -> nat {
    ((c as u32) - ('0' as u32)) as nat
}

/// The value of a big-endian run of decimal digits.
pub open spec fn digits_value(s: Seq<char>) -> nat
    decreases s.len(),
{
    if s.len() == 0 {
        0
    } else {
        digits_value(s.drop_last()) * 10 + digit_val(s.last())
    }
}

/// The digit run of an unsigned numeral: an optional leading plus sign is
/// accepted before the digits, as Rust's unsigned parsing accepts it.
pub open spec fn numeral_digits(s: Seq<char>) -> Seq<char> {
    if s.len() > 0 && s[0] == '+' {
        s.skip(1)
    } else {
        s
    }
}

/// An optional plus sign, then one or more decimal digits, nothing else.
pub open spec fn is_u64_numeral(s: Seq<char>) -> bool {
    numeral_digits(s).len() > 0 && all_digit_chars(numeral_digits(s))
}

/// A longer run of digits is worth at least as much as any prefix of it.
proof fn lemma_digits_value_take_le(s: Seq<char>, j: int)
    requires
        0 <= j <= s.len(),
    ensures
        digits_value(s.take(j)) <= digits_value(s),
    decreases s.len() - j,
{
    if j == s.len() {
        assert(s.take(j) =~= s);
    } else {
        assert(s.take(j + 1).drop_last() =~= s.take(j));
        assert(s.take(j + 1).last() == s[j]);
        assert(digits_value(s.take(j + 1)) == digits_value(s.take(j)) * 10 + digit_val(s[j]));
        lemma_digits_value_take_le(s, j + 1);
    }
}

/// Parses an unsigned decimal numeral. Returns the value exactly when the
/// string is a numeral whose value fits in a 64-bit unsigned integer.
pub fn parse_u64(s: &str) -> (r: Option<u64>)
    ensures
        r is Some <==> is_u64_numeral(s@) && digits_value(numeral_digits(s@)) <= u64::MAX,
        r is Some ==> r->0 == digits_value(numeral_digits(s@)),
{
    let n = s.unicode_len();
    let mut start: usize = 0;
    if n > 0 && s.get_char(0) == '+' {
        start = 1;
    }
    let ghost d = numeral_digits(s@);
    proof {
        if start == 1 {
            assert(d =~= s@.skip(1));
        } else {
            assert(d =~= s@.skip(0));
        }
        assert(d == s@.skip(start as int));
    }
    if start == n {
        return None;
    }
    let mut v: u64 = 0;
    let mut i: usize = start;
    while i < n
        invariant
            start <= i <= n,
            n == s@.len(),
            d == numeral_digits(s@),
            d == s@.skip(start as int),
            forall|j: int| start <= j < i ==> is_digit_char(#[trigger] s@[j]),
            v == digits_value(d.take(i - start)),
        decreases n - i,
    {
        let c = s.get_char(i);
        if !('0' <= c && c <= '9') {
            proof {
                assert(d[i - start] == s@[i as int]);
                assert(!all_digit_chars(d));
            }
            return None;
        }
        let dv: u64 = (c as u32 - '0' as u32) as u64;
        proof {
            assert(d.take(i - start + 1).drop_last() =~= d.take(i - start));
            assert(d.take(i - start + 1).last() == s@[i as int]);
            assert(digits_value(d.take(i - start + 1)) == digits_value(d.take(i - start)) * 10
                + digit_val(s@[i as int]));
        }
        let scaled = v.checked_mul(10);
        let next = match scaled {
            Some(w) => w.checked_add(dv),
            None => None,
        };
        match next {
            Some(w) => {
                v = w;
            },
            None => {
                proof {
                    assert(v * 10 + dv > u64::MAX);
                    if is_u64_numeral(s@) && digits_value(d) <= u64::MAX {
                        lemma_digits_value_take_le(d, i - start + 1);
                        assert(digits_value(d.take(i - start + 1)) > u64::MAX);
                    }
                }
                return None;
            },
        }
        i = i + 1;
    }
    proof {
        assert(d.take(n - start) =~= d);
        assert(all_digit_chars(d)) by {
            assert(forall|j: int|
                0 <= j < d.len() ==> #[trigger] d[j] == s@[start + j] && is_digit_char(
                    s@[start + j],
                ));
        }
    }
    Some(v)
}

/// Whether a path, given as its components, names a configuration entry:
/// at least four components, the second-to-last of the form `v{version}`
/// with a version that fits in a 64-bit unsigned integer.
pub open spec fn path_parses(parts: Seq<String>) -> bool {
    parts.len() >= 4 && {
        let vs = parts[parts.len() - 2]@;
        vs.len() >= 1 && vs[0] == 'v' && is_u64_numeral(vs.skip(1)) && digits_value(
            numeral_digits(vs.skip(1)),
        ) <= u64::MAX
    }
}

/// The version encoded in the second-to-last component.
pub open spec fn path_version(parts: Seq<String>) -> nat {
    digits_value(numeral_digits(parts[parts.len() - 2]@.skip(1)))
}

/// Splits a configuration path, given as its components, into the component
/// name, the version, and the entry name. The last component is the entry,
/// the second-to-last must be `v` followed by the version, and the
/// third-to-last is the component name.
pub fn parse_configuration_path(parts: &Vec<String>) -> (r: Option<(String, u64, String)>)
    ensures
        r is Some <==> path_parses(parts@),
        r is Some ==> (r->0).0@ == parts@[parts@.len() - 3]@ && (r->0).1 == path_version(parts@)
            && (r->0).2@ == parts@[parts@.len() - 1]@,
{
    let n = parts.len();
    if n < 4 {
        return None;
    }
    let version_comp: &String = &parts[n - 2];
    let vs = version_comp.as_str();
    let m = vs.unicode_len();
    if m == 0 {
        return None;
    }
    if vs.get_char(0) != 'v' {
        return None;
    }
    let rest = vs.substring_char(1, m);
    proof {
        assert(rest@ =~= vs@.skip(1));
    }
    match parse_u64(rest) {
        None => None,
        Some(v) => {
            let component = parts[n - 3].clone();
            let entry = parts[n - 1].clone();
            Some((component, v, entry))
        },
    }
}

} // verus!
