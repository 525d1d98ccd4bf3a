//! Decimal text for integers: rendering for status lines and the state
//! file, parsing for pid files and the state file. The spec-level
//! round-trip facts here carry the state codec's round-trip proof.
use crate::strutil::push_char;
use vstd::prelude::*;

verus! {

/// The character of a single decimal digit.
pub open spec fn digit_char(d: int) -> char
    recommends
        0 <= d < 10,
{
    (((48 + d) as u8) as char)
}

pub open spec fn is_digit(c: char) -> bool {
    '0' <= c && c <= '9'
}

pub open spec fn digit_val(c: char) -> int {
    c as int - 48
}

pub open spec fn all_digits(s: Seq<char>) -> bool {
    forall|i: int| 0 <= i < s.len() ==> is_digit(s[i])
}

/// The value of a sequence of decimal digits, most significant first.
pub open spec fn digits_val(s: Seq<char>) -> int
    decreases s.len(),
{
    if s.len() == 0 {
        0
    } else {
        digits_val(s.drop_last()) * 10 + digit_val(s.last())
    }
}

/// The canonical decimal rendering of a natural number.
pub open spec fn dec_seq(n: nat) -> Seq<char>
    decreases n,
{
    if n < 10 {
        seq![digit_char(n as int)]
    } else {
        dec_seq(n / 10) + seq![digit_char(n as int % 10)]
    }
}

/// The canonical decimal rendering of an integer: a minus sign before the
/// magnitude when negative.
pub open spec fn dec_int_seq(n: int) -> Seq<char> {
    if n >= 0 {
        dec_seq(n as nat)
    } else {
        seq!['-'] + dec_seq((-n) as nat)
    }
}

/// The integer a character sequence denotes: an optional minus sign, then
/// one or more digits; anything else denotes nothing.
pub open spec fn int_of_chars(s: Seq<char>) -> Option<int> {
    if s.len() > 1 && s[0] == '-' && all_digits(s.skip(1)) {
        Some(-digits_val(s.skip(1)))
    } else if s.len() > 0 && all_digits(s) {
        Some(digits_val(s))
    } else {
        None
    }
}

pub proof fn lemma_dec_seq_wf(n: nat)
    ensures
        dec_seq(n).len() >= 1,
        all_digits(dec_seq(n)),
        n >= 10 ==> dec_seq(n).len() >= 2,
        dec_seq(n)[0] != '0' || n == 0,
    decreases n,
{
    if n >= 10 {
        lemma_dec_seq_wf(n / 10);
    }
}

/// Parsing inverts rendering: the digits of `n` evaluate back to `n`.
pub proof fn lemma_digits_val_dec_seq(n: nat)
    ensures
        digits_val(dec_seq(n)) == n,
    decreases n,
{
    if n < 10 {
        assert(dec_seq(n) == seq![digit_char(n as int)]);
        assert(dec_seq(n).drop_last() =~= Seq::<char>::empty());
        assert(dec_seq(n).last() == digit_char(n as int));
        assert(digits_val(Seq::<char>::empty()) == 0);
        assert(digit_char(n as int) as int == 48 + n);
        assert(digits_val(dec_seq(n)) == digit_val(digit_char(n as int)));
    } else {
        lemma_digits_val_dec_seq(n / 10);
        assert(dec_seq(n) == dec_seq(n / 10) + seq![digit_char(n as int % 10)]);
        assert(dec_seq(n).drop_last() =~= dec_seq(n / 10));
        assert(dec_seq(n).last() == digit_char(n as int % 10));
        assert(digit_char(n as int % 10) as int == 48 + n % 10);
        assert(digits_val(dec_seq(n)) == digits_val(dec_seq(n / 10)) * 10 + digit_val(
            digit_char(n as int % 10),
        ));
    }
}

pub proof fn lemma_digits_val_nonneg(s: Seq<char>)
    requires
        all_digits(s),
    ensures
        digits_val(s) >= 0,
    decreases s.len(),
{
    if s.len() > 0 {
        assert(all_digits(s.drop_last()));
        lemma_digits_val_nonneg(s.drop_last());
    }
}

/// A digit string's value never shrinks as more digits are read.
pub proof fn lemma_digits_val_prefix(s: Seq<char>, i: int)
    requires
        all_digits(s),
        0 <= i <= s.len(),
    ensures
        digits_val(s) >= digits_val(s.take(i)),
    decreases s.len() - i,
{
    if i < s.len() {
        lemma_digits_val_prefix(s, i + 1);
        assert(s.take(i + 1).drop_last() =~= s.take(i));
        assert(all_digits(s.take(i)));
        lemma_digits_val_nonneg(s.take(i));
        assert(digits_val(s.take(i + 1)) == digits_val(s.take(i)) * 10 + digit_val(s.take(i + 1).last()));
    } else {
        assert(s.take(i) =~= s);
    }
}

fn digit_to_char(d: u64) -> (r: char)
    requires
        d < 10,
    ensures
        r == digit_char(d as int),
{
    ((48 + d as u8)) as char
}

/// Render a 64-bit natural number in decimal.
pub fn dec_u64(n: u64) -> (r: String)
    ensures
        r@ == dec_seq(n as nat),
{
    if n == 0 {
        let mut r = String::new();
        push_char(&mut r, '0');
        proof {
            assert(r@ =~= dec_seq(0));
        }
        return r;
    }
    let mut digits: Vec<char> = Vec::new();
    let mut m = n;
    proof {
        assert(dec_seq(n as nat) =~= dec_seq(m as nat) + digits@);
    }
    while m > 0
        invariant
            m > 0 ==> dec_seq(n as nat) == dec_seq(m as nat) + digits@,
            m == 0 ==> dec_seq(n as nat) == digits@,
        decreases m,
    {
        let d = m % 10;
        let m2 = m / 10;
        let ghost prior = digits@;
        digits.insert(0, digit_to_char(d));
        proof {
            assert(digits@ =~= seq![digit_char(d as int)] + prior);
            if m2 == 0 {
                assert(dec_seq(m as nat) =~= seq![digit_char(m as int)]);
                assert(dec_seq(n as nat) =~= digits@);
            } else {
                assert((m as nat) / 10 == m2 as nat);
                assert(dec_seq(m as nat) == dec_seq(m2 as nat) + seq![
                    digit_char(((m as nat) % 10) as int),
                ]);
                assert(dec_seq(n as nat) =~= dec_seq(m2 as nat) + digits@);
            }
        }
        m = m2;
    }
    crate::strutil::chars_string(digits.as_slice())
}

/// Render a 64-bit integer in decimal, with a minus sign when negative.
pub fn dec_i64(n: i64) -> (r: String)
    ensures
        r@ == dec_int_seq(n as int),
{
    if n >= 0 {
        dec_u64(n as u64)
    } else {
        let m: u64 = (-(n as i128)) as u64;
        proof {
            assert(m as nat == (-(n as int)) as nat);
        }
        let mut r = String::new();
        push_char(&mut r, '-');
        let tail = dec_u64(m);
        r.append(tail.as_str());
        proof {
            assert(r@ =~= dec_int_seq(n as int));
        }
        r
    }
}

/// Render a machine-word count in decimal.
pub fn dec_usize(n: usize) -> (r: String)
    ensures
        r@ == dec_seq(n as nat),
{
    dec_u64(n as u64)
}

pub fn is_digit_char(c: char) -> (r: bool)
    ensures
        r == is_digit(c),
{
    '0' <= c && c <= '9'
}

/// Parse a whole character slice as an integer with an optional leading
/// minus sign, rejecting values outside the 32-bit signed range.
pub fn chars_to_i32(cs: &[char]) -> (r: Option<i32>)
    ensures
        r == (match int_of_chars(cs@) {
            Some(v) => if i32::MIN <= v <= i32::MAX {
                Some(v as i32)
            } else {
                None::<i32>
            },
            None => None::<i32>,
        }),
{
    let neg = cs.len() > 1 && cs[0] == '-';
    let start: usize = if neg {
        1
    } else {
        0
    };
    if cs.len() == start {
        proof {
            if neg {
            } else {
                assert(int_of_chars(cs@) is None);
            }
        }
        return None;
    }
    let ghost body: Seq<char> = cs@.skip(start as int);
    let mut acc: u64 = 0;
    let mut i: usize = start;
    while i < cs.len()
        invariant
            start <= i <= cs@.len(),
            start < cs@.len(),
            body == cs@.skip(start as int),
            neg ==> (cs@.len() > 1 && cs@[0] == '-' && start == 1),
            !neg ==> (start == 0 && !(cs@.len() > 1 && cs@[0] == '-')),
            all_digits(body.take(i - start)),
            acc == digits_val(body.take(i - start)),
            acc <= 0x8000_0000u64,
        decreases cs@.len() - i,
    {
        let c = cs[i];
        if !is_digit_char(c) {
            proof {
                assert(body[i - start] == c);
                assert(!all_digits(body));
                assert(int_of_chars(cs@) is None);
            }
            return None;
        }
        let d: u64 = (c as u64) - 48;
        proof {
            assert(body.take(i - start + 1).drop_last() =~= body.take(i - start));
        }
        if acc > 214748364 || (acc == 214748364 && d > 8) {
            proof {
                lemma_digits_val_nonneg(body.take(i - start));
                assert(body.take(i - start + 1).last() == c);
                assert(digits_val(body.take(i - start + 1)) == acc * 10 + d);
                if all_digits(body) {
                    lemma_digits_val_prefix(body, i - start + 1);
                    assert(digits_val(body) >= digits_val(body.take(i - start + 1)));
                    assert(digits_val(body) > 0x8000_0000);
                    if neg {
                        assert(cs@.skip(1) =~= body);
                        assert(int_of_chars(cs@) == Some(-digits_val(body)));
                        assert(-digits_val(body) < i32::MIN);
                    } else {
                        assert(body =~= cs@);
                        assert(is_digit(cs@[0]));
                        assert(cs@[0] != '-');
                        assert(int_of_chars(cs@) == Some(digits_val(cs@)));
                        assert(digits_val(cs@) > i32::MAX);
                    }
                } else {
                    if neg {
                        assert(cs@.skip(1) =~= body);
                        assert(!is_digit('-'));
                        assert(cs@[0] == '-');
                        assert(!all_digits(cs@));
                    } else {
                        assert(body =~= cs@);
                    }
                    assert(int_of_chars(cs@) is None);
                }
            }
            return None;
        }
        acc = acc * 10 + d;
        i = i + 1;
    }
    proof {
        assert(body.take(i - start) =~= body);
    }
    if neg {
        proof {
            assert(int_of_chars(cs@) == Some(-digits_val(body)));
        }
        if acc == 0x8000_0000u64 {
            Some(i32::MIN)
        } else {
            Some(-(acc as i32))
        }
    } else {
        if acc > 0x7fff_ffffu64 {
            proof {
                assert(cs@.take(cs@.len() as int) =~= cs@);
                assert(int_of_chars(cs@) == Some(digits_val(cs@)));
            }
            None
        } else {
            proof {
                assert(body =~= cs@);
            }
            Some(acc as i32)
        }
    }
}

} // verus!
