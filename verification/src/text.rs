//! Text of monetary amounts: the grammar the input fields must follow,
//! a verified parser from text to fixed-point cents, and a verified
//! renderer used to seed edit fields from stored values.
//!
//! An amount text is an optional minus sign, then decimal digits with an
//! optional fractional part of at most two digits after one dot; at least
//! one digit must be present.

use crate::money::AMOUNT_LIMIT_CENTS;
use crate::money::Money;
use crate::money::PARSE_LIMIT_CENTS;
use vstd::prelude::*;

verus! {

/// The character is a decimal digit.
pub open spec fn is_digit(c: char) -> bool {
    48 <= c as int && c as int <= 57
}

/// Numeric value of a digit character.
pub open spec fn digit_val(c: char) -> int {
    c as int - 48
}

/// Every character of the sequence is a decimal digit.
pub open spec fn all_digits(s: Seq<char>) -> bool {
    forall|i: int| 0 <= i < s.len() ==> is_digit(#[trigger] s[i])
}

/// Value of a digit sequence read in base ten; 0 for the empty sequence.
pub open spec fn digits_val(s: Seq<char>) -> int
    decreases s.len(),
{
    if s.len() == 0 {
        0
    } else {
        10 * digits_val(s.drop_last()) + digit_val(s.last())
    }
}

/// Index of the first dot, or the length when there is none.
pub open spec fn dot_index(s: Seq<char>) -> int
    decreases s.len(),
{
    if s.len() == 0 {
        0
    } else if s[0] == '.' {
        0
    } else {
        1 + dot_index(s.skip(1))
    }
}

/// Cents denoted by a fractional part of at most two digits.
pub open spec fn frac_cents(f: Seq<char>) -> int {
    if f.len() == 0 {
        0
    } else if f.len() == 1 {
        10 * digit_val(f[0])
    } else {
        10 * digit_val(f[0]) + digit_val(f[1])
    }
}

/// The sequence is a well-formed unsigned amount text.
pub open spec fn unsigned_ok(s: Seq<char>) -> bool {
    let d = dot_index(s);
    if d == s.len() {
        all_digits(s) && s.len() >= 1
    } else {
        let frac = s.subrange(d + 1, s.len() as int);
        all_digits(s.take(d)) && all_digits(frac) && frac.len() <= 2 && s.len() >= 2
    }
}

/// Cents denoted by a well-formed unsigned amount text.
pub open spec fn unsigned_val(s: Seq<char>) -> int {
    let d = dot_index(s);
    if d == s.len() {
        100 * digits_val(s)
    } else {
        100 * digits_val(s.take(d)) + frac_cents(s.subrange(d + 1, s.len() as int))
    }
}

/// The sequence is a well-formed signed amount text.
pub open spec fn amount_ok(s: Seq<char>) -> bool {
    if s.len() > 0 && s[0] == '-' {
        unsigned_ok(s.skip(1))
    } else {
        unsigned_ok(s)
    }
}

/// Cents denoted by a well-formed signed amount text.
pub open spec fn amount_val(s: Seq<char>) -> int {
    if s.len() > 0 && s[0] == '-' {
        -unsigned_val(s.skip(1))
    } else {
        unsigned_val(s)
    }
}

/// The parser accepts exactly the well-formed texts whose value fits the
/// input range.
pub open spec fn amount_accepted(s: Seq<char>) -> bool {
    amount_ok(s) && -PARSE_LIMIT_CENTS <= amount_val(s) <= PARSE_LIMIT_CENTS
}

/// The first dot is where no dot stands before it and a dot (or the end)
/// stands at it.
pub proof fn lemma_dot_index_char(s: Seq<char>, k: int)
    requires
        0 <= k <= s.len(),
        forall|j: int| 0 <= j < k ==> s[j] != '.',
        k == s.len() || s[k] == '.',
    ensures
        dot_index(s) == k,
    decreases s.len(),
{
    if s.len() == 0 {
    } else if s[0] == '.' {
        assert(k == 0);
    } else {
        let t = s.skip(1);
        assert(forall|j: int| 0 <= j < k - 1 ==> t[j] == s[j + 1] && s[j + 1] != '.');
        assert(k - 1 == t.len() || t[k - 1] == '.');
        lemma_dot_index_char(t, k - 1);
    }
}

/// Basic bounds and meaning of `dot_index`.
pub proof fn lemma_dot_index(s: Seq<char>)
    ensures
        0 <= dot_index(s) <= s.len(),
        forall|j: int| 0 <= j < dot_index(s) ==> s[j] != '.',
        dot_index(s) < s.len() ==> s[dot_index(s)] == '.',
    decreases s.len(),
{
    if s.len() == 0 {
    } else if s[0] == '.' {
    } else {
        let t = s.skip(1);
        lemma_dot_index(t);
        assert(forall|j: int| 1 <= j < dot_index(s) ==> s[j] == t[j - 1] && t[j - 1] != '.');
        if dot_index(s) < s.len() {
            assert(s[dot_index(s)] == t[dot_index(s) - 1]);
        }
    }
}

/// A digit sequence's value never goes down when digits are appended.
pub proof fn lemma_digits_val_monotone(s: Seq<char>, i: int)
    requires
        all_digits(s),
        0 <= i <= s.len(),
    ensures
        0 <= digits_val(s.take(i)) <= digits_val(s),
    decreases s.len() - i,
{
    if i == s.len() {
        assert(s.take(i) =~= s);
        lemma_digits_val_nonneg(s);
    } else {
        assert(s.take(i + 1).drop_last() =~= s.take(i));
        assert(s.take(i + 1).last() == s[i]);
        lemma_digits_val_monotone(s, i + 1);
        lemma_digits_val_nonneg(s.take(i));
    }
}

/// A digit sequence's value is never negative.
pub proof fn lemma_digits_val_nonneg(s: Seq<char>)
    requires
        all_digits(s),
    ensures
        digits_val(s) >= 0,
    decreases s.len(),
{
    if s.len() > 0 {
        assert(all_digits(s.drop_last())) by {
            assert(forall|j: int| 0 <= j < s.len() - 1 ==> s.drop_last()[j] == s[j]);
        }
        lemma_digits_val_nonneg(s.drop_last());
    }
}

/// Reading one more digit multiplies the value by ten and adds the digit.
pub proof fn lemma_digits_val_step(s: Seq<char>, i: int)
    requires
        0 <= i < s.len(),
    ensures
        digits_val(s.take(i + 1)) == 10 * digits_val(s.take(i)) + digit_val(s[i]),
{
    assert(s.take(i + 1).drop_last() =~= s.take(i));
    assert(s.take(i + 1).last() == s[i]);
}

/// Parses an amount text into cents. Returns the value exactly when the
/// text follows the grammar and the value fits the input range.
pub fn parse_amount(s: &str) -> (r: Option<Money>)
    ensures
        r is Some <==> amount_accepted(s@),
        r matches Some(m) ==> m@ == amount_val(s@),
{
    let len = s.unicode_len();
    let neg = len > 0 && s.get_char(0) == '-';
    let start: usize = if neg { 1 } else { 0 };
    let ghost t = if neg { s@.skip(1) } else { s@ };
    proof {
        assert(t =~= s@.subrange(start as int, len as int));
        assert(amount_ok(s@) == unsigned_ok(t));
        assert(amount_val(s@) == if neg {
            -unsigned_val(t)
        } else {
            unsigned_val(t)
        });
    }

    // Scan the integer part: digits up to the first dot or the end.
    let lim100: i64 = PARSE_LIMIT_CENTS / 100;
    let mut i: usize = start;
    let mut acc: i64 = 0;
    while i < len
        invariant
            len == s@.len(),
            start <= i <= len,
            start == if neg { 1int } else { 0int },
            amount_ok(s@) == unsigned_ok(t),
            amount_val(s@) == if neg { -unsigned_val(t) } else { unsigned_val(t) },
            t == s@.subrange(start as int, len as int),
            lim100 == PARSE_LIMIT_CENTS / 100,
            forall|j: int| start <= j < i ==> s@[j] != '.' && is_digit(#[trigger] s@[j]),
            acc == digits_val(s@.subrange(start as int, i as int)),
            0 <= acc <= lim100,
        ensures
            i == len || (i < len && s@[i as int] == '.'),
        decreases len - i,
    {
        let c = s.get_char(i);
        if c == '.' {
            break;
        }
        let ghost m = i - start;
        proof {
            // No dot up to and including position `m` of the unsigned text,
            // so the first dot of `t` lies beyond it.
            lemma_dot_index(t);
            assert(forall|j: int| 0 <= j < m ==> t[j] == s@[j + start]);
            assert(t[m as int] == c);
            if dot_index(t) <= m {
                assert(t[dot_index(t)] == '.');
                assert(false);
            }
        }
        let cv = c as u32;
        if !(48 <= cv && cv <= 57) {
            proof {
                // The offending character makes the integer part ill-formed.
                if dot_index(t) == t.len() {
                    assert(!is_digit(t[m as int]));
                } else {
                    assert(!is_digit(t.take(dot_index(t))[m as int]));
                }
            }
            return None;
        }
        let d = (cv - 48) as i64;
        proof {
            lemma_digits_val_step(s@.subrange(start as int, len as int), i - start);
            assert(s@.subrange(start as int, len as int).take(i - start) =~= s@.subrange(
                start as int,
                i as int,
            ));
            assert(s@.subrange(start as int, len as int).take(i + 1 - start) =~= s@.subrange(
                start as int,
                i + 1,
            ));
        }
        let next = acc * 10 + d;
        if next > lim100 {
            // Already past the input range: further digits only raise the value.
            proof {
                if unsigned_ok(t) {
                    let dt = dot_index(t);
                    let ip = if dt == t.len() { t } else { t.take(dt) };
                    assert(all_digits(ip));
                    assert(m + 1 <= dt);
                    assert(ip.take(m + 1) =~= t.take(m + 1));
                    assert(t.take(m + 1) =~= s@.subrange(start as int, i + 1));
                    assert(digits_val(ip.take(m + 1)) == next);
                    lemma_digits_val_monotone(ip, m + 1);
                    assert(digits_val(ip) >= next);
                    if dt == t.len() {
                        assert(unsigned_val(t) == 100 * digits_val(t));
                    } else {
                        let fr = t.subrange(dt + 1, t.len() as int);
                        assert(is_digit(fr[0]) && (fr.len() > 1 ==> is_digit(fr[1]))
                            ==> frac_cents(fr) >= 0);
                        assert(frac_cents(fr) >= 0);
                    }
                    assert(unsigned_val(t) > PARSE_LIMIT_CENTS);
                }
            }
            return None;
        }
        acc = next;
        i = i + 1;
    }

    // `i` now sits on the first dot, or at the end.
    proof {
        assert(forall|j: int| 0 <= j < i - start ==> t[j] == s@[j + start] && t[j] != '.');
        if i < len {
            assert(t[i - start] == s@[i as int]);
        }
        lemma_dot_index_char(t, i - start);
        assert(t.take(i - start) =~= s@.subrange(start as int, i as int));
    }

    let frac: i64;
    if i == len {
        if len == start {
            // No digit at all.
            return None;
        }
        proof {
            assert(t =~= t.take(i - start));
        }
        frac = 0;
    } else {
        // A dot: at most two fractional digits, all of them digits.
        let ghost fr = t.subrange(dot_index(t) + 1, t.len() as int);
        proof {
            assert(fr =~= s@.subrange(i + 1, len as int));
        }
        let flen = len - i - 1;
        if flen > 2 {
            return None;
        }
        if i == start && flen == 0 {
            // A lone dot carries no digit.
            proof {
                assert(t.len() < 2);
            }
            return None;
        }
        if flen == 0 {
            frac = 0;
        } else {
            let c0 = s.get_char(i + 1);
            let cv0 = c0 as u32;
            proof {
                assert(fr[0] == s@[i + 1]);
            }
            if !(48 <= cv0 && cv0 <= 57) {
                proof {
                    assert(!is_digit(fr[0]));
                }
                return None;
            }
            if flen == 1 {
                frac = 10 * ((cv0 - 48) as i64);
                proof {
                    assert(forall|j: int| 0 <= j < fr.len() ==> is_digit(#[trigger] fr[j]));
                }
            } else {
                let c1 = s.get_char(i + 2);
                let cv1 = c1 as u32;
                proof {
                    assert(fr[1] == s@[i + 2]);
                }
                if !(48 <= cv1 && cv1 <= 57) {
                    proof {
                        assert(!is_digit(fr[1]));
                    }
                    return None;
                }
                frac = 10 * ((cv0 - 48) as i64) + ((cv1 - 48) as i64);
                proof {
                    assert(forall|j: int| 0 <= j < fr.len() ==> is_digit(#[trigger] fr[j]));
                }
            }
        }
    }

    let cents = acc * 100 + frac;
    proof {
        assert(unsigned_ok(t));
        assert(unsigned_val(t) == cents);
    }
    if cents > PARSE_LIMIT_CENTS {
        return None;
    }
    if neg {
        Some(Money { cents: -cents })
    } else {
        Some(Money { cents })
    }
}

/// The digit character with the given value.
pub open spec fn digit_char(d: int) -> char {
    if d == 0 {
        '0'
    } else if d == 1 {
        '1'
    } else if d == 2 {
        '2'
    } else if d == 3 {
        '3'
    } else if d == 4 {
        '4'
    } else if d == 5 {
        '5'
    } else if d == 6 {
        '6'
    } else if d == 7 {
        '7'
    } else if d == 8 {
        '8'
    } else {
        '9'
    }
}

/// Decimal rendering of a non-negative integer, most significant digit
/// first, with no leading zeros except for zero itself.
pub open spec fn int_digits_text(n: int) -> Seq<char>
    decreases n,
{
    if n < 10 {
        seq![digit_char(n)]
    } else {
        int_digits_text(n / 10).push(digit_char(n % 10))
    }
}

/// Rendering of a non-negative amount of cents, as the table shows it:
/// no fractional part when it is zero, one fractional digit when the
/// second would be zero, two otherwise.
pub open spec fn amount_text(v: int) -> Seq<char> {
    let units = v / 100;
    let cents = v % 100;
    if cents == 0 {
        int_digits_text(units)
    } else if cents % 10 == 0 {
        int_digits_text(units) + seq!['.', digit_char(cents / 10)]
    } else {
        int_digits_text(units) + seq!['.', digit_char(cents / 10), digit_char(cents % 10)]
    }
}

/// The rendering of a non-negative integer consists of digits only.
pub proof fn lemma_int_digits_text_digits(n: int)
    requires
        0 <= n,
    ensures
        int_digits_text(n).len() >= 1,
        all_digits(int_digits_text(n)),
        digits_val(int_digits_text(n)) == n,
    decreases n,
{
    if n < 10 {
        let w = seq![digit_char(n)];
        assert(int_digits_text(n) =~= w);
        assert(is_digit(digit_char(n)));
        assert(w.drop_last() =~= Seq::<char>::empty());
        assert(digits_val(Seq::<char>::empty()) == 0);
        assert(digits_val(w) == digit_val(digit_char(n)));
    } else {
        lemma_int_digits_text_digits(n / 10);
        let a = int_digits_text(n / 10);
        let w = a.push(digit_char(n % 10));
        assert(w.drop_last() =~= a);
        assert(w.last() == digit_char(n % 10));
        assert(forall|j: int| 0 <= j < w.len() - 1 ==> w[j] == a[j]);
        assert(is_digit(digit_char(n % 10)));
        assert(digits_val(w) == 10 * (n / 10) + (n % 10));
    }
}

/// Rendering a non-negative amount and parsing it back returns the same
/// value: the renderer is an inverse of the parser on its range.
pub proof fn lemma_amount_text_round_trip(v: int)
    requires
        0 <= v <= PARSE_LIMIT_CENTS,
    ensures
        amount_accepted(amount_text(v)),
        amount_val(amount_text(v)) == v,
{
    let units = v / 100;
    let cents = v % 100;
    lemma_int_digits_text_digits(units);
    let a = int_digits_text(units);
    let s = amount_text(v);
    assert(is_digit(a[0]));
    assert(s[0] == a[0]);
    assert(s[0] != '-');
    if cents == 0 {
        assert(s =~= a);
        lemma_dot_index_char(s, s.len() as int);
        assert(unsigned_ok(s));
        assert(unsigned_val(s) == 100 * units);
    } else if cents % 10 == 0 {
        assert(forall|j: int| 0 <= j < a.len() ==> s[j] == a[j]);
        assert(s[a.len() as int] == '.');
        lemma_dot_index_char(s, a.len() as int);
        let fr = s.subrange(a.len() as int + 1, s.len() as int);
        assert(fr =~= seq![digit_char(cents / 10)]);
        assert(s.take(a.len() as int) =~= a);
        assert(is_digit(digit_char(cents / 10)));
        assert(unsigned_ok(s));
        assert(frac_cents(fr) == 10 * (cents / 10));
        assert(10 * (cents / 10) == cents);
        assert(unsigned_val(s) == 100 * units + cents);
    } else {
        assert(forall|j: int| 0 <= j < a.len() ==> s[j] == a[j]);
        assert(s[a.len() as int] == '.');
        lemma_dot_index_char(s, a.len() as int);
        let fr = s.subrange(a.len() as int + 1, s.len() as int);
        assert(fr =~= seq![digit_char(cents / 10), digit_char(cents % 10)]);
        assert(s.take(a.len() as int) =~= a);
        assert(is_digit(digit_char(cents / 10)));
        assert(is_digit(digit_char(cents % 10)));
        assert(unsigned_ok(s));
        assert(frac_cents(fr) == 10 * (cents / 10) + cents % 10);
        assert(unsigned_val(s) == 100 * units + cents);
    }
    assert(100 * units + cents == v);
    assert(amount_ok(s));
    assert(amount_val(s) == unsigned_val(s));
}

/// The text of one digit.
fn digit_str(d: u64) -> (r: &'static str)
    requires
        d < 10,
    ensures
        r@ == seq![digit_char(d as int)],
{
    proof {
        reveal_strlit("0");
        reveal_strlit("1");
        reveal_strlit("2");
        reveal_strlit("3");
        reveal_strlit("4");
        reveal_strlit("5");
        reveal_strlit("6");
        reveal_strlit("7");
        reveal_strlit("8");
        reveal_strlit("9");
    }
    let r = match d {
        0 => "0",
        1 => "1",
        2 => "2",
        3 => "3",
        4 => "4",
        5 => "5",
        6 => "6",
        7 => "7",
        8 => "8",
        _ => "9",
    };
    proof {
        assert(r@ =~= seq![digit_char(d as int)]);
    }
    r
}

/// Renders a non-negative integer in decimal.
fn int_digits(n: i64) -> (s: String)
    requires
        0 <= n,
    ensures
        s@ == int_digits_text(n as int),
    decreases n,
{
    if n < 10 {
        String::from_str(digit_str(n as u64))
    } else {
        let mut s = int_digits(n / 10);
        s.append(digit_str((n % 10) as u64));
        proof {
            assert(int_digits_text((n / 10) as int).push(digit_char((n % 10) as int))
                =~= int_digits_text((n / 10) as int) + seq![digit_char((n % 10) as int)]);
        }
        s
    }
}

/// Renders a non-negative amount of cents as the input fields expect it.
pub fn format_amount(v: i64) -> (s: String)
    requires
        0 <= v <= AMOUNT_LIMIT_CENTS,
    ensures
        s@ == amount_text(v as int),
{
    let units = v / 100;
    let cents = v % 100;
    let mut s = int_digits(units);
    if cents != 0 {
        proof {
            reveal_strlit(".");
        }
        s.append(".");
        let d1 = cents / 10;
        let d2 = cents % 10;
        s.append(digit_str(d1 as u64));
        if d2 == 0 {
            proof {
                assert(s@ =~= amount_text(v as int));
            }
        } else {
            s.append(digit_str(d2 as u64));
            proof {
                assert(s@ =~= amount_text(v as int));
            }
        }
    }
    s
}

} // verus!
