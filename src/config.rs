use vstd::prelude::*;

verus! {

/// Whether every character of `s` is an ASCII digit.
pub open spec fn all_digits(s: Seq<char>) -> bool {
    forall|i: int| 0 <= i < s.len() ==> 48 <= (#[trigger] s[i] as u32) && (s[i] as u32) <= 57
}

/// The number that a run of ASCII digits spells in decimal.
pub open spec fn digits_value(s: Seq<char>) -> int
    decreases s.len(),
{
    if s.len() == 0 {
        0
    } else {
        digits_value(s.drop_last()) * 10 + (s.last() as u32 - 48)
    }
}

/// The `u16` that `s` spells: an optional `+`, then one or more ASCII digits
/// whose value is at most 65535; `None` for any other text.
pub open spec fn u16_text_value(s: Seq<char>) -> Option<u16> {
    let digits = if s.len() > 0 && s[0] == '+' {
        s.drop_first()
    } else {
        s
    };
    if digits.len() > 0 && all_digits(digits) && digits_value(digits) <= 65535 {
        Some(digits_value(digits) as u16)
    } else {
        None
    }
}

proof fn lemma_digits_grow(d: Seq<char>, k: int)
    requires
        0 <= k <= d.len(),
        all_digits(d),
    ensures
        digits_value(d.take(k)) <= digits_value(d),
        0 <= digits_value(d.take(k)),
    decreases d.len() - k,
{
    if k < d.len() {
        lemma_digits_grow(d, k + 1);
        assert(d.take(k + 1).drop_last() =~= d.take(k));
        assert(d.take(k + 1).last() == d[k]);
        assert(48 <= (d[k] as u32));
    } else {
        assert(d.take(k) =~= d);
        lemma_digits_nonneg(d);
    }
}

proof fn lemma_digits_nonneg(d: Seq<char>)
    requires
        all_digits(d),
    ensures
        0 <= digits_value(d),
    decreases d.len(),
{
    if d.len() > 0 {
        assert(all_digits(d.drop_last())) by {
            assert forall|i: int| 0 <= i < d.drop_last().len() implies 48 <= (
            #[trigger] d.drop_last()[i] as u32) && (d.drop_last()[i] as u32) <= 57 by {
                assert(d.drop_last()[i] == d[i]);
            }
        }
        lemma_digits_nonneg(d.drop_last());
        assert(48 <= (d[d.len() - 1] as u32));
    }
}

/// Reads a `u16` written in decimal, as `str::parse::<u16>` does: an optional
/// `+`, then ASCII digits, rejecting empty text, other characters and
/// overflow.
#[verifier::rlimit(40)]
pub fn parse_u16(s: &str) -> (r: Option<u16>)
    ensures
        r == u16_text_value(s@),
{
    let n = s.unicode_len();
    let mut start: usize = 0;
    if n > 0 && s.get_char(0) == '+' {
        start = 1;
    }
    let ghost digits = s@.skip(start as int);
    assert(digits =~= (if s@.len() > 0 && s@[0] == '+' {
        s@.drop_first()
    } else {
        s@
    }));
    if start >= n {
        return None;
    }
    let mut i: usize = start;
    let mut v: u32 = 0;
    while i < n
        invariant
            n == s@.len(),
            start < n,
            start <= i <= n,
            digits == s@.skip(start as int),
            digits == (if s@.len() > 0 && s@[0] == '+' {
                s@.drop_first()
            } else {
                s@
            }),
            all_digits(digits.take(i - start)),
            v as int == digits_value(digits.take(i - start)),
            v <= 65535,
        decreases n - i,
    {
        let c = s.get_char(i);
        assert(digits[i - start] == c);
        if (c as u32) < 48 || (c as u32) > 57 {
            assert(!all_digits(digits)) by {
                assert(!(48 <= (digits[i - start] as u32) && (digits[i - start] as u32) <= 57));
            }
            assert(u16_text_value(s@) is None);
            return None;
        }
        let d: u32 = c as u32 - 48;
        assert(v * 10 <= 655350) by (nonlinear_arith)
            requires
                v <= 65535,
        ;
        let nv: u32 = v * 10 + d;
        assert(digits.take(i - start + 1).drop_last() =~= digits.take(i - start));
        assert(digits.take(i - start + 1).last() == c);
        assert(all_digits(digits.take(i - start + 1))) by {
            assert forall|j: int| 0 <= j < i - start + 1 implies 48 <= (
            #[trigger] digits.take(i - start + 1)[j] as u32) && (digits.take(i - start + 1)[j]
                as u32) <= 57 by {
                if j < i - start {
                    assert(digits.take(i - start + 1)[j] == digits.take(i - start)[j]);
                }
            }
        }
        if nv > 65535 {
            proof {
                if all_digits(digits) {
                    lemma_digits_grow(digits, i - start + 1);
                }
            }
            assert(u16_text_value(s@) is None);
            return None;
        }
        v = nv;
        i = i + 1;
    }
    assert(digits.take(i - start) =~= digits);
    Some(v as u16)
}

/// A setting read from its raw text: the number it spells, or `default` when
/// the setting is absent or not a `u16`.
pub fn config_value(raw: Option<String>, default: u16) -> (r: u16)
    ensures
        r == match raw {
            Some(s) => match u16_text_value(s@) {
                Some(v) => v,
                None => default,
            },
            None => default,
        },
{
    match raw {
        Some(s) => match parse_u16(s.as_str()) {
            Some(v) => v,
            None => default,
        },
        None => default,
    }
}

} // verus!
