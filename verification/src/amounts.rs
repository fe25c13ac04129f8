//! Reading a money amount out of a decimal string.
//!
//! The accepted shape is one or more digits, optionally followed by a dot
//! and one or two fraction digits (`"12"`, `"12.5"`, `"12.50"`). The value
//! is returned in whole cents.

use vstd::prelude::*;
use crate::dates::digit_val;
use crate::dates::is_digit_char;

verus! {

/// The factor that scales a one- or two-digit fraction to cents.
pub open spec fn frac_scale(flen: int) -> int {
    if flen == 1 {
        10int
    } else {
        1int
    }
}

pub open spec fn all_digits(s: Seq<char>) -> bool {
    forall|i: int| 0 <= i < s.len() ==> is_digit_char(#[trigger] s[i])
}

/// The value of a string of decimal digits, most significant first.
pub open spec fn digits_val(s: Seq<char>) -> int
    decreases s.len(),
{
    if s.len() == 0 {
        0
    } else {
        digits_val(s.drop_last()) * 10 + digit_val(s.last())
    }
}

/// `cents` is the value of `s` read as a decimal amount of money: one or
/// more digits, optionally followed by a dot and one or two fraction
/// digits. At most one `cents` satisfies this for a given `s`.
pub open spec fn amount_parsed(s: Seq<char>, cents: int) -> bool {
    ||| (s.len() >= 1 && all_digits(s) && cents == digits_val(s) * 100)
    ||| (exists|k: int|
        {
            &&& 1 <= k < s.len()
            &&& #[trigger] s[k] == '.'
            &&& all_digits(s.subrange(0, k))
            &&& all_digits(s.subrange(k + 1, s.len() as int))
            &&& 1 <= s.len() - k - 1 <= 2
            &&& cents == digits_val(s.subrange(0, k)) * 100 + digits_val(
                s.subrange(k + 1, s.len() as int),
            ) * frac_scale(s.len() - k - 1)
        })
}

pub proof fn lemma_digits_val_nonneg(s: Seq<char>)
    requires
        all_digits(s),
    ensures
        digits_val(s) >= 0,
    decreases s.len(),
{
    if s.len() > 0 {
        lemma_digits_val_nonneg(s.drop_last());
    }
}

/// Reading more digits never makes the value smaller.
pub proof fn lemma_digits_val_prefix(s: Seq<char>, i: int)
    requires
        all_digits(s),
        0 <= i <= s.len(),
    ensures
        digits_val(s.subrange(0, i)) <= digits_val(s),
    decreases s.len() - i,
{
    if i < s.len() {
        assert(s.subrange(0, i + 1).drop_last() =~= s.subrange(0, i));
        lemma_digits_val_nonneg(s.subrange(0, i));
        assert(digits_val(s.subrange(0, i)) <= digits_val(s.subrange(0, i + 1)));
        lemma_digits_val_prefix(s, i + 1);
    } else {
        assert(s.subrange(0, i) =~= s);
    }
}

/// A string determines its parsed amount uniquely.
pub proof fn lemma_amount_unique(s: Seq<char>, c1: int, c2: int)
    requires
        amount_parsed(s, c1),
        amount_parsed(s, c2),
    ensures
        c1 == c2,
{
    if all_digits(s) {
        assert forall|k: int| 1 <= k < s.len() implies s[k] != '.' by {
            assert(is_digit_char(s[k]));
        }
    } else {
        let k1 = choose|k: int|
            {
                &&& 1 <= k < s.len()
                &&& #[trigger] s[k] == '.'
                &&& all_digits(s.subrange(0, k))
                &&& all_digits(s.subrange(k + 1, s.len() as int))
                &&& 1 <= s.len() - k - 1 <= 2
                &&& c1 == digits_val(s.subrange(0, k)) * 100 + digits_val(
                    s.subrange(k + 1, s.len() as int),
                ) * frac_scale(s.len() - k - 1)
            };
        let k2 = choose|k: int|
            {
                &&& 1 <= k < s.len()
                &&& #[trigger] s[k] == '.'
                &&& all_digits(s.subrange(0, k))
                &&& all_digits(s.subrange(k + 1, s.len() as int))
                &&& 1 <= s.len() - k - 1 <= 2
                &&& c2 == digits_val(s.subrange(0, k)) * 100 + digits_val(
                    s.subrange(k + 1, s.len() as int),
                ) * frac_scale(s.len() - k - 1)
            };
        if k1 < k2 {
            assert(is_digit_char(s.subrange(0, k2)[k1]));
        }
        if k2 < k1 {
            assert(is_digit_char(s.subrange(0, k1)[k2]));
        }
    }
}

fn is_digit(c: char) -> (b: bool)
    ensures
        b == is_digit_char(c),
{
    '0' <= c && c <= '9'
}

fn digit_of(c: char) -> (d: u64)
    requires
        is_digit_char(c),
    ensures
        d == digit_val(c),
{
    (c as u32 - '0' as u32) as u64
}

/// Reads a decimal money amount, in cents. Returns `None` exactly when the
/// string does not have the accepted shape or its value does not fit.
pub fn parse_amount(s: &str) -> (r: Option<u64>)
    ensures
        r matches Some(c) ==> amount_parsed(s@, c as int),
        r is None ==> forall|c: int| 0 <= c <= u64::MAX as int ==> !amount_parsed(s@, c),
{
    let ghost sv = s@;
    let n = s.unicode_len();
    let mut i: usize = 0;
    let mut whole: u64 = 0;
    loop
        invariant
            sv == s@,
            n == sv.len(),
            0 <= i <= n,
            all_digits(sv.subrange(0, i as int)),
            whole == digits_val(sv.subrange(0, i as int)),
        ensures
            0 <= i <= n,
            all_digits(sv.subrange(0, i as int)),
            whole == digits_val(sv.subrange(0, i as int)),
            i == n || sv[i as int] == '.',
        decreases n - i,
    {
        if i >= n {
            break ;
        }
        let c = s.get_char(i);
        if c == '.' {
            break ;
        }
        if !is_digit(c) {
            proof {
                lemma_no_parse_bad_char(sv, i as int);
            }
            return None;
        }
        let d = digit_of(c);
        proof {
            lemma_digits_val_step(sv, i as int);
        }
        let step: Option<u64> = match whole.checked_mul(10) {
            Some(w10) => w10.checked_add(d),
            None => None,
        };
        match step {
            Some(w) => {
                whole = w;
                i = i + 1;
            },
            None => {
                proof {
                    assert(digits_val(sv.subrange(0, i as int + 1)) > u64::MAX as int);
                    lemma_no_parse_overflow(sv, i as int + 1);
                }
                return None;
            },
        }
    }
    if i == 0 {
        proof {
            lemma_no_parse_no_leading_digit(sv);
        }
        return None;
    }
    if i == n {
        proof {
            assert(sv.subrange(0, n as int) =~= sv);
        }
        match whole.checked_mul(100) {
            Some(c) => {
                return Some(c);
            },
            None => {
                proof {
                    lemma_no_parse_overflow(sv, n as int);
                }
                return None;
            },
        }
    }
    // `s[i]` is the dot; read one or two fraction digits.
    proof {
        lemma_only_split_at(sv, i as int);
    }
    let flen = n - i - 1;
    if flen < 1 || flen > 2 {
        return None;
    }
    let c1 = s.get_char(i + 1);
    proof {
        assert(sv.subrange(i as int + 1, n as int)[0] == sv[i as int + 1]);
    }
    if !is_digit(c1) {
        return None;
    }
    let mut frac: u64 = digit_of(c1) * 10;
    if flen == 2 {
        let c2 = s.get_char(i + 2);
        proof {
            assert(sv.subrange(i as int + 1, n as int)[1] == sv[i as int + 2]);
        }
        if !is_digit(c2) {
            return None;
        }
        frac = digit_of(c1) * 10 + digit_of(c2);
    }
    proof {
        lemma_frac_val(sv, i as int);
        let f = sv.subrange(i as int + 1, n as int);
        assert forall|j: int| 0 <= j < f.len() implies is_digit_char(#[trigger] f[j]) by {
            assert(f[j] == sv[i as int + 1 + j]);
        }
        assert(all_digits(f));
        assert(digits_val(f) * frac_scale(n - i - 1) == frac as int);
    }
    let cents: Option<u64> = match whole.checked_mul(100) {
        Some(c100) => c100.checked_add(frac),
        None => None,
    };
    match cents {
        Some(c) => {
            proof {
                assert(amount_parsed(sv, c as int)) by {
                    assert({
                        &&& 1 <= (i as int) < sv.len()
                        &&& sv[i as int] == '.'
                        &&& all_digits(sv.subrange(0, i as int))
                        &&& all_digits(sv.subrange(i as int + 1, sv.len() as int))
                        &&& 1 <= sv.len() - (i as int) - 1 <= 2
                        &&& c as int == digits_val(sv.subrange(0, i as int)) * 100 + digits_val(
                            sv.subrange(i as int + 1, sv.len() as int),
                        ) * frac_scale(sv.len() - (i as int) - 1)
                    });
                }
            }
            Some(c)
        },
        None => {
            // The one value this string could stand for is too large.
            proof {
                assert(whole as int * 100 + frac as int > u64::MAX as int);
                assert forall|c: int| 0 <= c <= u64::MAX as int implies !amount_parsed(sv, c) by {
                    if amount_parsed(sv, c) {
                        assert(c == whole as int * 100 + frac as int);
                    }
                }
            }
            None
        },
    }
}

/// Extending a digit prefix by one digit multiplies its value by ten and
/// adds the new digit.
proof fn lemma_digits_val_step(s: Seq<char>, i: int)
    requires
        0 <= i < s.len(),
        all_digits(s.subrange(0, i)),
        is_digit_char(s[i]),
    ensures
        all_digits(s.subrange(0, i + 1)),
        digits_val(s.subrange(0, i + 1)) == digits_val(s.subrange(0, i)) * 10 + digit_val(s[i]),
{
    assert(s.subrange(0, i + 1).drop_last() =~= s.subrange(0, i));
    assert(s.subrange(0, i + 1).last() == s[i]);
    assert forall|j: int| 0 <= j < i + 1 implies is_digit_char(#[trigger] s.subrange(0, i + 1)[j]) by {
        if j < i {
            assert(s.subrange(0, i + 1)[j] == s.subrange(0, i)[j]);
        } else {
            assert(s.subrange(0, i + 1)[j] == s[i]);
        }
    }
}

/// If the first `i` characters are digits and `s[i]` is neither a digit nor
/// a dot, no amount can be read out of `s`.
proof fn lemma_no_parse_bad_char(s: Seq<char>, i: int)
    requires
        0 <= i < s.len(),
        all_digits(s.subrange(0, i)),
        !is_digit_char(s[i]),
        s[i] != '.',
    ensures
        forall|c: int| !amount_parsed(s, c),
{
    assert forall|c: int| !amount_parsed(s, c) by {
        if amount_parsed(s, c) {
            if s.len() >= 1 && all_digits(s) && c == digits_val(s) * 100 {
                assert(is_digit_char(s[i]));
            } else {
                let k = choose|k: int|
                    {
                        &&& 1 <= k < s.len()
                        &&& #[trigger] s[k] == '.'
                        &&& all_digits(s.subrange(0, k))
                        &&& all_digits(s.subrange(k + 1, s.len() as int))
                        &&& 1 <= s.len() - k - 1 <= 2
                    };
                if k < i {
                    assert(is_digit_char(s.subrange(0, i)[k]));
                } else if k > i {
                    assert(is_digit_char(s.subrange(0, k)[i]));
                }
            }
        }
    }
}

/// If the digits up to `j` already overflow `u64`, no representable amount
/// can be read out of `s`.
proof fn lemma_no_parse_overflow(s: Seq<char>, j: int)
    requires
        0 <= j <= s.len(),
        all_digits(s.subrange(0, j)),
        digits_val(s.subrange(0, j)) * 100 > u64::MAX as int,
    ensures
        forall|c: int| 0 <= c <= u64::MAX as int ==> !amount_parsed(s, c),
{
    let dvj = digits_val(s.subrange(0, j));
    assert forall|c: int| 0 <= c <= u64::MAX as int implies !amount_parsed(s, c) by {
        if amount_parsed(s, c) {
            if s.len() >= 1 && all_digits(s) && c == digits_val(s) * 100 {
                lemma_digits_val_prefix(s, j);
                assert(digits_val(s) * 100 >= dvj * 100);
            } else {
                let k = choose|k: int|
                    {
                        &&& 1 <= k < s.len()
                        &&& #[trigger] s[k] == '.'
                        &&& all_digits(s.subrange(0, k))
                        &&& all_digits(s.subrange(k + 1, s.len() as int))
                        &&& 1 <= s.len() - k - 1 <= 2
                        &&& c == digits_val(s.subrange(0, k)) * 100 + digits_val(
                            s.subrange(k + 1, s.len() as int),
                        ) * frac_scale(s.len() - k - 1)
                    };
                if k < j {
                    assert(is_digit_char(s.subrange(0, j)[k]));
                }
                lemma_digits_val_prefix_general(s, j, k);
                lemma_digits_val_nonneg(s.subrange(k + 1, s.len() as int));
                let dvk = digits_val(s.subrange(0, k));
                let fv = digits_val(s.subrange(k + 1, s.len() as int));
                assert(fv * frac_scale(s.len() - k - 1) >= 0);
                assert(dvk * 100 >= dvj * 100);
            }
        }
    }
}

/// A digit prefix's value is at most the value of a longer digit prefix.
proof fn lemma_digits_val_prefix_general(s: Seq<char>, i: int, j: int)
    requires
        0 <= i <= j <= s.len(),
        all_digits(s.subrange(0, j)),
    ensures
        digits_val(s.subrange(0, i)) <= digits_val(s.subrange(0, j)),
{
    assert(s.subrange(0, j).subrange(0, i) =~= s.subrange(0, i));
    lemma_digits_val_prefix(s.subrange(0, j), i);
}

/// A string that does not start with a digit holds no amount.
proof fn lemma_no_parse_no_leading_digit(s: Seq<char>)
    requires
        s.len() == 0 || !is_digit_char(s[0]),
    ensures
        forall|c: int| !amount_parsed(s, c),
{
    assert forall|c: int| !amount_parsed(s, c) by {
        if amount_parsed(s, c) {
            if s.len() >= 1 && all_digits(s) {
                assert(is_digit_char(s[0]));
            } else {
                let k = choose|k: int|
                    {
                        &&& 1 <= k < s.len()
                        &&& #[trigger] s[k] == '.'
                        &&& all_digits(s.subrange(0, k))
                        &&& all_digits(s.subrange(k + 1, s.len() as int))
                        &&& 1 <= s.len() - k - 1 <= 2
                    };
                assert(is_digit_char(s.subrange(0, k)[0]));
            }
        }
    }
}

/// When the digits stop at a dot at position `i`, any reading of `s` as an
/// amount splits exactly there.
proof fn lemma_only_split_at(s: Seq<char>, i: int)
    requires
        0 < i < s.len(),
        all_digits(s.subrange(0, i)),
        s[i] == '.',
    ensures
        forall|c: int|
            amount_parsed(s, c) ==> {
                &&& all_digits(s.subrange(i + 1, s.len() as int))
                &&& 1 <= s.len() - i - 1 <= 2
                &&& c == digits_val(s.subrange(0, i)) * 100 + digits_val(
                    s.subrange(i + 1, s.len() as int),
                ) * frac_scale(s.len() - i - 1)
            },
{
    assert forall|c: int|
        amount_parsed(s, c) implies {
        &&& all_digits(s.subrange(i + 1, s.len() as int))
        &&& 1 <= s.len() - i - 1 <= 2
        &&& c == digits_val(s.subrange(0, i)) * 100 + digits_val(s.subrange(i + 1, s.len() as int))
            * frac_scale(s.len() - i - 1)
    } by {
        if s.len() >= 1 && all_digits(s) && c == digits_val(s) * 100 {
            assert(is_digit_char(s[i]));
        } else {
            let k = choose|k: int|
                {
                    &&& 1 <= k < s.len()
                    &&& #[trigger] s[k] == '.'
                    &&& all_digits(s.subrange(0, k))
                    &&& all_digits(s.subrange(k + 1, s.len() as int))
                    &&& 1 <= s.len() - k - 1 <= 2
                    &&& c == digits_val(s.subrange(0, k)) * 100 + digits_val(
                        s.subrange(k + 1, s.len() as int),
                    ) * frac_scale(s.len() - k - 1)
                };
            if k < i {
                assert(is_digit_char(s.subrange(0, i)[k]));
            }
            if k > i {
                assert(is_digit_char(s.subrange(0, k)[i]));
            }
        }
    }
}

/// Relates the one- or two-digit fraction read by the parser to
/// `digits_val` of the fraction substring.
proof fn lemma_frac_val(s: Seq<char>, i: int)
    requires
        0 <= i < s.len(),
        s.len() - i - 1 == 1 || s.len() - i - 1 == 2,
    ensures
        s.len() - i - 1 == 1 ==> digits_val(s.subrange(i + 1, s.len() as int)) == digit_val(
            s[i + 1],
        ),
        s.len() - i - 1 == 2 ==> digits_val(s.subrange(i + 1, s.len() as int)) == digit_val(
            s[i + 1],
        ) * 10 + digit_val(s[i + 2]),
{
    let f = s.subrange(i + 1, s.len() as int);
    if s.len() - i - 1 == 1 {
        assert(f.drop_last() =~= Seq::<char>::empty());
        assert(f.last() == s[i + 1]);
        assert(digits_val(f) == digits_val(Seq::<char>::empty()) * 10 + digit_val(s[i + 1]));
    } else {
        let g = f.drop_last();
        assert(g =~= s.subrange(i + 1, i + 2));
        assert(g.drop_last() =~= Seq::<char>::empty());
        assert(g.last() == s[i + 1]);
        assert(f.last() == s[i + 2]);
        assert(digits_val(g) == digits_val(Seq::<char>::empty()) * 10 + digit_val(s[i + 1]));
        assert(digits_val(f) == digits_val(g) * 10 + digit_val(s[i + 2]));
    }
}

} // verus!
