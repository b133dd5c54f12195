//! Decimal text for 64-bit integers: rendering and parsing, both exact.
//!
//! `spec_render_int` and `spec_parse_ok` / `spec_parse_val` define the
//! canonical decimal form; `render_i64` and `parse_i64` are proved against
//! them.  Rendering then parsing gives the integer back
//! (`lemma_render_parse_round_trip`).

use vstd::prelude::*;

verus! {

/// The decimal digit character of `d` (meaningful for `0 <= d <= 9`).
pub open spec fn dchar(d: int) -> char {
    if d == 0 {
        '0'
    } else if d == 1 {
        '1'
    } else if d == 2 {
        '2'
    } else if d == 3 {
        '3'
    } else if d == 4 {
        '4'
    } else if d == 5 {
        '5'
    } else if d == 6 {
        '6'
    } else if d == 7 {
        '7'
    } else if d == 8 {
        '8'
    } else {
        '9'
    }
}

/// The decimal digit run of a non-negative integer, most significant first,
/// with no leading zero except for zero itself.
pub open spec fn spec_digits(n: int) -> Seq<char>
    decreases n,
{
    if n < 10 {
        seq![dchar(n)]
    } else {
        spec_digits(n / 10) + seq![dchar(n % 10)]
    }
}

/// The canonical decimal text of an integer: a minus sign before the digit
/// run when negative.
pub open spec fn spec_render_int(n: int) -> Seq<char> {
    if n < 0 {
        seq!['-'] + spec_digits(-n)
    } else {
        spec_digits(n)
    }
}

/// Whether `c` is a decimal digit.
pub open spec fn is_digit_char(c: char) -> bool {
    48 <= c as u32 <= 57
}

/// The value of a digit character.
pub open spec fn digit_char_val(c: char) -> int {
    c as u32 - 48
}

/// Whether every character of `s` is a decimal digit.
pub open spec fn all_digits(s: Seq<char>) -> bool {
    forall|i: int| 0 <= i < s.len() ==> is_digit_char(#[trigger] s[i])
}

/// The value of a digit run, most significant first.
pub open spec fn digits_value(s: Seq<char>) -> int
    decreases s.len(),
{
    if s.len() == 0 {
        0
    } else {
        digits_value(s.drop_last()) * 10 + digit_char_val(s.last())
    }
}

/// Whether `s` is parsable as an integer: an optional minus sign, then at
/// least one digit.
pub open spec fn spec_parse_ok(s: Seq<char>) -> bool {
    if s.len() >= 1 && s[0] == '-' {
        s.len() >= 2 && all_digits(s.subrange(1, s.len() as int))
    } else {
        s.len() >= 1 && all_digits(s)
    }
}

/// The integer a parsable text denotes.
pub open spec fn spec_parse_val(s: Seq<char>) -> int {
    if s.len() >= 1 && s[0] == '-' {
        -digits_value(s.subrange(1, s.len() as int))
    } else {
        digits_value(s)
    }
}

/// A digit run always has a non-negative value.
pub proof fn lemma_digits_value_nonneg(s: Seq<char>)
    requires
        all_digits(s),
    ensures
        digits_value(s) >= 0,
    decreases s.len(),
{
    if s.len() > 0 {
        assert(all_digits(s.drop_last())) by {
            assert(forall|i: int|
                0 <= i < s.len() - 1 ==> #[trigger] s.drop_last()[i] == s[i]);
        }
        lemma_digits_value_nonneg(s.drop_last());
    }
}

/// Extending a digit run can only grow its value.
pub proof fn lemma_digits_value_monotonic(s: Seq<char>, i: int)
    requires
        all_digits(s),
        0 <= i <= s.len(),
    ensures
        digits_value(s.take(i)) <= digits_value(s),
    decreases s.len() - i,
{
    if i == s.len() {
        assert(s.take(i) =~= s);
    } else {
        lemma_digits_value_monotonic(s, i + 1);
        assert(s.take(i + 1).drop_last() =~= s.take(i));
        assert(all_digits(s.take(i))) by {
            assert(forall|j: int| 0 <= j < i ==> #[trigger] s.take(i)[j] == s[j]);
        }
        lemma_digits_value_nonneg(s.take(i));
        assert(digits_value(s.take(i + 1)) == digits_value(s.take(i)) * 10 + digit_char_val(
            s.take(i + 1).last(),
        ));
        assert(digits_value(s.take(i)) * 10 >= digits_value(s.take(i))) by (nonlinear_arith)
            requires
                digits_value(s.take(i)) >= 0,
        ;
        assert(is_digit_char(s[i]));
    }
}

/// The digit run of `n` consists of digits and denotes `n`.
pub proof fn lemma_digits_of_value(n: int)
    requires
        n >= 0,
    ensures
        all_digits(spec_digits(n)),
        digits_value(spec_digits(n)) == n,
    decreases n,
{
    if n < 10 {
        assert(spec_digits(n) =~= seq![dchar(n)]);
        assert(is_digit_char(dchar(n)));
        assert(digits_value(seq![dchar(n)].drop_last()) == 0) by {
            assert(seq![dchar(n)].drop_last() =~= Seq::<char>::empty());
        }
        assert(digit_char_val(dchar(n)) == n);
    } else {
        lemma_digits_of_value(n / 10);
        let p = spec_digits(n / 10);
        let w = p + seq![dchar(n % 10)];
        assert(w.drop_last() =~= p);
        assert(w.last() == dchar(n % 10));
        assert(is_digit_char(dchar(n % 10)));
        assert(forall|i: int| 0 <= i < p.len() ==> w[i] == #[trigger] p[i]);
        assert(digits_value(w) == digits_value(p) * 10 + digit_char_val(dchar(n % 10)));
        assert(digit_char_val(dchar(n % 10)) == n % 10);
        assert((n / 10) * 10 + n % 10 == n) by (nonlinear_arith);
    }
}

/// Rendering an integer and parsing the text back yields the integer.
pub proof fn lemma_render_parse_round_trip(n: int)
    ensures
        spec_parse_ok(spec_render_int(n)),
        spec_parse_val(spec_render_int(n)) == n,
{
    if n < 0 {
        lemma_digits_of_value(-n);
        let d = spec_digits(-n);
        let s = seq!['-'] + d;
        assert(s[0] == '-');
        assert(s.subrange(1, s.len() as int) =~= d);
        assert(d.len() >= 1) by {
            if -n < 10 {
                assert(d =~= seq![dchar(-n)]);
            }
        }
    } else {
        lemma_digits_of_value(n);
        let d = spec_digits(n);
        assert(d.len() >= 1) by {
            if n < 10 {
                assert(d =~= seq![dchar(n)]);
            }
        }
        assert(d[0] != '-') by {
            assert(is_digit_char(d[0]));
        }
    }
}

/// The one-character string of a decimal digit.
fn digit_str(d: u64) -> (s: String)
    requires
        d < 10,
    ensures
        s@ =~= seq![dchar(d as int)],
{
    proof {
        reveal_strlit("0");
        reveal_strlit("1");
        reveal_strlit("2");
        reveal_strlit("3");
        reveal_strlit("4");
        reveal_strlit("5");
        reveal_strlit("6");
        reveal_strlit("7");
        reveal_strlit("8");
        reveal_strlit("9");
    }
    if d == 0 {
        String::from_str("0")
    } else if d == 1 {
        String::from_str("1")
    } else if d == 2 {
        String::from_str("2")
    } else if d == 3 {
        String::from_str("3")
    } else if d == 4 {
        String::from_str("4")
    } else if d == 5 {
        String::from_str("5")
    } else if d == 6 {
        String::from_str("6")
    } else if d == 7 {
        String::from_str("7")
    } else if d == 8 {
        String::from_str("8")
    } else {
        String::from_str("9")
    }
}

/// The digit run of a non-negative machine integer.
pub fn render_digits(n: u64) -> (s: String)
    ensures
        s@ == spec_digits(n as int),
    decreases n,
{
    if n < 10 {
        digit_str(n)
    } else {
        let mut s = render_digits(n / 10);
        let d = digit_str(n % 10);
        s.append(d.as_str());
        assert(s@ =~= spec_digits(n as int));
        s
    }
}

/// Renders an integer as canonical decimal text.
pub fn render_i64(x: i64) -> (s: String)
    ensures
        s@ == spec_render_int(x as int),
{
    proof {
        reveal_strlit("-");
    }
    if x >= 0 {
        render_digits(x as u64)
    } else {
        let magnitude: u64 = ((-(x + 1)) as u64) + 1;
        assert(magnitude as int == -(x as int));
        let mut s = String::from_str("-");
        assert(s@ =~= seq!['-']);
        let d = render_digits(magnitude);
        s.append(d.as_str());
        assert(s@ =~= spec_render_int(x as int));
        s
    }
}

/// Parses canonical or sign-prefixed decimal text as an `i64`.  Returns
/// `None` exactly when the text is not an optional minus sign followed by
/// digits, or the value does not fit.
pub fn parse_i64(s: &str) -> (r: Option<i64>)
    ensures
        r is Some <==> (spec_parse_ok(s@) && i64::MIN <= spec_parse_val(s@) <= i64::MAX),
        r matches Some(v) ==> v as int == spec_parse_val(s@),
{
    let n = s.unicode_len();
    if n == 0 {
        return None;
    }
    let neg = s.get_char(0) == '-';
    let start: usize = if neg {
        1
    } else {
        0
    };
    if neg && n == 1 {
        return None;
    }
    let ghost digits: Seq<char> = if neg {
        s@.subrange(1, s@.len() as int)
    } else {
        s@
    };
    // Accumulate the negated value so that `i64::MIN` is reachable.
    let mut acc: i64 = 0;
    let mut i: usize = start;
    while i < n
        invariant
            n == s@.len(),
            n >= 1,
            neg == (s@[0] == '-'),
            neg ==> n >= 2,
            start <= i <= n,
            start == (if neg {
                1int
            } else {
                0int
            }),
            digits == (if neg {
                s@.subrange(1, s@.len() as int)
            } else {
                s@
            }),
            all_digits(digits.take(i - start)),
            acc <= 0,
            acc as int == -digits_value(digits.take(i - start)),
        decreases n - i,
    {
        let c = s.get_char(i);
        let cv = c as u32;
        if cv < 48 || cv > 57 {
            proof {
                assert(digits[i - start] == c);
                assert(!is_digit_char(c));
                assert(!all_digits(digits));
                assert(!spec_parse_ok(s@));
            }
            return None;
        }
        let d: i64 = (cv - 48) as i64;
        proof {
            assert(digits.take(i - start + 1).drop_last() =~= digits.take(i - start));
            assert(digits.take(i - start + 1).last() == c);
        }
        let acc10 = match acc.checked_mul(10) {
            Some(v) => v,
            None => {
                proof {
                    lemma_digit_overflow(digits, i - start, acc as int, d as int, s@, neg);
                }
                return None;
            },
        };
        let next = match acc10.checked_sub(d) {
            Some(v) => v,
            None => {
                proof {
                    lemma_digit_overflow(digits, i - start, acc as int, d as int, s@, neg);
                }
                return None;
            },
        };
        acc = next;
        i = i + 1;
    }
    proof {
        assert(digits.take(n - start) =~= digits);
    }
    if neg {
        Some(acc)
    } else {
        if acc == i64::MIN {
            return None;
        }
        Some(-acc)
    }
}

/// When one accumulation step leaves the `i64` range, the whole digit run's
/// value leaves it too, so the text as a whole is unparsable as an `i64`.
proof fn lemma_digit_overflow(
    digits: Seq<char>,
    k: int,
    acc: int,
    d: int,
    whole: Seq<char>,
    neg: bool,
)
    requires
        0 <= k < digits.len(),
        all_digits(digits.take(k)),
        is_digit_char(digits[k]),
        acc == -digits_value(digits.take(k)),
        acc <= 0,
        0 <= d <= 9,
        d == digit_char_val(digits[k]),
        acc * 10 - d < i64::MIN,
        digits == (if neg {
            whole.subrange(1, whole.len() as int)
        } else {
            whole
        }),
        neg ==> (whole.len() >= 1 && whole[0] == '-'),
        !neg ==> (whole.len() >= 1 && whole[0] != '-'),
    ensures
        !(spec_parse_ok(whole) && i64::MIN <= spec_parse_val(whole) <= i64::MAX),
{
    if spec_parse_ok(whole) {
        let full = digits_value(digits);
        assert(all_digits(digits));
        assert(digits.take(k + 1).drop_last() =~= digits.take(k));
        assert(digits.take(k + 1).last() == digits[k]);
        assert(digits_value(digits.take(k + 1)) == digits_value(digits.take(k)) * 10 + d);
        lemma_digits_value_monotonic(digits, k + 1);
        assert(digits_value(digits.take(k + 1)) <= full);
        assert(digits_value(digits.take(k + 1)) > i64::MAX);
        if neg {
            assert(spec_parse_val(whole) == -full);
            assert(-full < i64::MIN);
        } else {
            assert(spec_parse_val(whole) == full);
            assert(full > i64::MAX);
        }
    }
}

} // verus!
