//! Durations: the configuration writes rate-limit intervals as `"<n>s"`,
//! `"<n>ms"`, `"<n>m"` or `"<n>h"`; the core works in milliseconds.

use vstd::prelude::*;
use vstd::string::StrSliceExecFns;

verus! {

/// Whether `c` is an ASCII decimal digit.
pub open spec fn spec_is_digit(c: char) -> bool {
    '0' <= c && c <= '9'
}

/// The numeric value of a digit.
pub open spec fn spec_digit_val(c: char) -> int {
    c as int - '0' as int
}

/// The number a digit string denotes, most significant digit first.
pub open spec fn spec_digits_val(s: Seq<char>) -> int
    decreases s.len(),
{
    if s.len() == 0 {
        0
    } else {
        spec_digits_val(s.drop_last()) * 10 + spec_digit_val(s.last())
    }
}

/// How many leading characters of `s` are digits.
pub open spec fn spec_digit_prefix_len(s: Seq<char>) -> int
    decreases s.len(),
{
    if s.len() == 0 || !spec_is_digit(s[0]) {
        0
    } else {
        1 + spec_digit_prefix_len(s.drop_first())
    }
}

/// The milliseconds one unit of the given suffix denotes: `ms`, `s`, `m` or
/// `h`; anything else is not a duration.
pub open spec fn spec_unit_ms(suffix: Seq<char>) -> Option<int> {
    if suffix.len() == 1 && suffix[0] == 's' {
        Some(1000)
    } else if suffix.len() == 1 && suffix[0] == 'm' {
        Some(60000)
    } else if suffix.len() == 1 && suffix[0] == 'h' {
        Some(3600000)
    } else if suffix.len() == 2 && suffix[0] == 'm' && suffix[1] == 's' {
        Some(1)
    } else {
        None
    }
}

/// What a duration string denotes, in milliseconds: one or more digits, then
/// exactly one unit suffix; rejected when malformed or when the value does
/// not fit the counter.
pub open spec fn spec_parse_duration_ms(s: Seq<char>) -> Option<int> {
    let nd = spec_digit_prefix_len(s);
    if nd == 0 {
        None
    } else {
        match spec_unit_ms(s.skip(nd)) {
            None => None,
            Some(unit) => {
                let v = spec_digits_val(s.take(nd)) * unit;
                if v > u64::MAX {
                    None
                } else {
                    Some(v)
                }
            },
        }
    }
}

proof fn lemma_digit_prefix(s: Seq<char>, i: int)
    requires
        0 <= i <= s.len(),
        forall|k: int| 0 <= k < i ==> spec_is_digit(#[trigger] s[k]),
        i == s.len() || !spec_is_digit(s[i]),
    ensures
        spec_digit_prefix_len(s) == i,
    decreases s.len(),
{
    if i > 0 {
        assert(spec_is_digit(s[0]));
        assert forall|k: int| 0 <= k < i - 1 implies spec_is_digit(#[trigger] s.drop_first()[k]) by {
            assert(s.drop_first()[k] == s[k + 1]);
        }
        if i < s.len() {
            assert(s.drop_first()[i - 1] == s[i]);
        }
        lemma_digit_prefix(s.drop_first(), i - 1);
    }
}

proof fn lemma_digits_nonneg(s: Seq<char>)
    requires
        forall|k: int| 0 <= k < s.len() ==> spec_is_digit(#[trigger] s[k]),
    ensures
        spec_digits_val(s) >= 0,
    decreases s.len(),
{
    if s.len() > 0 {
        lemma_digits_nonneg(s.drop_last());
    }
}

/// Parse a configured duration into milliseconds. Returns the value exactly
/// when the string is one or more digits followed by `ms`, `s`, `m` or `h`
/// and the product fits; returns nothing otherwise.
pub fn parse_duration_ms(s: &str) -> (r: Option<u64>)
    ensures
        match r {
            Some(v) => spec_parse_duration_ms(s@) == Some(v as int),
            None => spec_parse_duration_ms(s@) is None,
        },
{
    let len = s.unicode_len();
    let mut i: usize = 0;
    let mut acc: u128 = 0;
    proof {
        assert(s@.take(0) =~= Seq::<char>::empty());
    }
    loop
        invariant
            i <= len,
            len == s@.len(),
            forall|k: int| 0 <= k < i ==> spec_is_digit(#[trigger] s@[k]),
            acc <= 0x1_0000_0000_0000_0000u128,
            acc <= u64::MAX ==> acc == spec_digits_val(s@.take(i as int)),
            acc > u64::MAX ==> spec_digits_val(s@.take(i as int)) > u64::MAX,
        ensures
            i <= len,
            len == s@.len(),
            forall|k: int| 0 <= k < i ==> spec_is_digit(#[trigger] s@[k]),
            i == len || !spec_is_digit(s@[i as int]),
            acc <= 0x1_0000_0000_0000_0000u128,
            acc <= u64::MAX ==> acc == spec_digits_val(s@.take(i as int)),
            acc > u64::MAX ==> spec_digits_val(s@.take(i as int)) > u64::MAX,
        decreases len - i,
    {
        if i == len {
            break ;
        }
        let c = s.get_char(i);
        if !(c >= '0' && c <= '9') {
            break ;
        }
        let d: u128 = (c as u32 - 48) as u128;
        proof {
            assert(s@.take(i as int + 1).drop_last() =~= s@.take(i as int));
            assert(s@.take(i as int + 1).last() == s@[i as int]);
            lemma_digits_nonneg(s@.take(i as int));
        }
        acc = acc * 10 + d;
        if acc > u64::MAX as u128 {
            proof {
                assert(spec_digits_val(s@.take(i as int + 1)) > u64::MAX);
            }
            acc = (u64::MAX as u128) + 1;
        }
        i = i + 1;
    }
    proof {
        lemma_digit_prefix(s@, i as int);
    }
    if i == 0 {
        return None;
    }
    let suffix_len = len - i;
    let unit: u128 = if suffix_len == 1 {
        let c = s.get_char(i);
        if c == 's' {
            1000
        } else if c == 'm' {
            60000
        } else if c == 'h' {
            3600000
        } else {
            return None;
        }
    } else if suffix_len == 2 {
        let c1 = s.get_char(i);
        let c2 = s.get_char(i + 1);
        if c1 == 'm' && c2 == 's' {
            1
        } else {
            return None;
        }
    } else {
        return None;
    };
    proof {
        assert(s@.skip(i as int).len() == suffix_len);
        assert forall|k: int| 0 <= k < suffix_len implies s@.skip(i as int)[k] == s@[i + k] by {}
        assert(spec_unit_ms(s@.skip(i as int)) == Some(unit as int));
        lemma_digits_nonneg(s@.take(i as int));
    }
    if acc > u64::MAX as u128 {
        return None;
    }
    let v: u128 = acc * unit;
    if v > u64::MAX as u128 {
        None
    } else {
        Some(v as u64)
    }
}

} // verus!
