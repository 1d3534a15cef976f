//! Decimal numbers: reading the two numeric fields of a line, and writing a
//! line number into a message.

use crate::text::chars_of;
use libc::c_int;
use vstd::prelude::*;
use vstd::string::*;

verus! {

/// `c` is one of the ten ASCII digits.
pub open spec fn is_digit(c: char) -> bool {
    '0' <= c <= '9'
}

/// The number that the digit `c` stands for.
pub open spec fn digit_value(c: char) -> int {
    c as int - '0' as int
}

/// Every character of `s` is a digit.
pub open spec fn all_digits(s: Seq<char>) -> bool {
    forall|i: int| 0 <= i < s.len() ==> is_digit(#[trigger] s[i])
}

/// The number that a run of digits denotes in base ten; leading zeros count
/// for nothing, and the empty run denotes zero.
pub open spec fn digits_value(s: Seq<char>) -> nat
    decreases s.len(),
{
    if s.len() == 0 {
        0
    } else {
        (digits_value(s.drop_last()) * 10 + digit_value(s.last())) as nat
    }
}

/// The integer that a text denotes: an optional sign, `+` or `-`, and then
/// one digit or more. Any other text denotes nothing.
pub open spec fn integer_value(s: Seq<char>) -> Option<int> {
    if s.len() > 0 && (s.first() == '+' || s.first() == '-') {
        let digits = s.drop_first();
        if digits.len() > 0 && all_digits(digits) {
            Some(
                if s.first() == '-' {
                    -(digits_value(digits) as int)
                } else {
                    digits_value(digits) as int
                },
            )
        } else {
            None
        }
    } else if s.len() > 0 && all_digits(s) {
        Some(digits_value(s) as int)
    } else {
        None
    }
}

/// The `c_int` that a text denotes, if it denotes an integer that a `c_int`
/// can hold.
pub open spec fn c_int_value(s: Seq<char>) -> Option<c_int> {
    match integer_value(s) {
        Some(v) => if c_int::MIN <= v <= c_int::MAX {
            Some(v as c_int)
        } else {
            None
        },
        None => None,
    }
}

/// One digit more at the end multiplies by ten and adds the digit.
pub proof fn lemma_digits_value_push(s: Seq<char>, c: char)
    requires
        is_digit(c),
    ensures
        digits_value(s.push(c)) == digits_value(s) * 10 + digit_value(c),
{
    assert(s.push(c).drop_last() == s);
}

/// Reads the digit `c`.
pub fn digit_of(c: char) -> (r: Option<u8>)
    ensures
        r is Some <==> is_digit(c),
        r matches Some(d) ==> d == digit_value(c) && d <= 9,
{
    if c >= '0' && c <= '9' {
        let v: u32 = c as u32 - '0' as u32;
        Some(v as u8)
    } else {
        None
    }
}

/// Reads a text as a `c_int`.
///
/// Returns `None` for a text that is no integer, and for an integer that a
/// `c_int` cannot hold.
pub fn parse_c_int(text: &str) -> (r: Option<c_int>)
    ensures
        r == c_int_value(text@),
{
    let chars = chars_of(text);
    assert(chars@.subrange(0, chars@.len() as int) == chars@);
    parse_c_int_in(chars.as_slice(), 0, chars.len())
}

/// Reads the part `lo..hi` of `s` as a `c_int`.
pub(crate) fn parse_c_int_in(s: &[char], lo: usize, hi: usize) -> (r: Option<c_int>)
    requires
        lo <= hi <= s@.len(),
    ensures
        r == c_int_value(s@.subrange(lo as int, hi as int)),
{
    let ghost t = s@.subrange(lo as int, hi as int);
    if lo == hi {
        return None;
    }
    let negative: bool = s[lo] == '-';
    let signed: bool = negative || s[lo] == '+';
    let from: usize = if signed {
        lo + 1
    } else {
        lo
    };
    let ghost digits = s@.subrange(from as int, hi as int);
    proof {
        assert(t.first() == s@[lo as int]);
        if signed {
            assert(digits == t.drop_first());
        } else {
            assert(digits == t);
        }
    }
    if from == hi {
        return None;
    }
    // The magnitude, as long as it is at most 2^31; `big` once it is more.
    let limit: u64 = 0x8000_0000;
    let mut acc: u64 = 0;
    let mut big: bool = false;
    let mut i: usize = from;
    proof {
        assert(s@.subrange(from as int, from as int).len() == 0);
    }
    while i < hi
        invariant
            lo <= from <= i <= hi <= s@.len(),
            limit == 0x8000_0000,
            t == s@.subrange(lo as int, hi as int),
            digits == s@.subrange(from as int, hi as int),
            integer_value(t) == if all_digits(digits) {
                Some(
                    if negative {
                        -(digits_value(digits) as int)
                    } else {
                        digits_value(digits) as int
                    },
                )
            } else {
                None
            },
            all_digits(s@.subrange(from as int, i as int)),
            !big ==> acc == digits_value(s@.subrange(from as int, i as int)) && acc <= limit,
            big ==> digits_value(s@.subrange(from as int, i as int)) > limit,
        decreases hi - i,
    {
        let ghost before = s@.subrange(from as int, i as int);
        let ghost after = s@.subrange(from as int, i as int + 1);
        match digit_of(s[i]) {
            None => {
                proof {
                    assert(digits[i - from] == s@[i as int]);
                    assert(!all_digits(digits));
                }
                return None;
            },
            Some(d) => {
                proof {
                    assert(after == before.push(s@[i as int]));
                    lemma_digits_value_push(before, s@[i as int]);
                    assert forall|k: int| 0 <= k < after.len() implies is_digit(
                        #[trigger] after[k],
                    ) by {
                        if k < before.len() {
                            assert(after[k] == before[k]);
                        }
                    }
                }
                if !big {
                    let next: u64 = acc * 10 + d as u64;
                    if next > limit {
                        big = true;
                    } else {
                        acc = next;
                    }
                }
            },
        }
        i = i + 1;
    }
    proof {
        assert(s@.subrange(from as int, i as int) == digits);
    }
    if big {
        None
    } else if negative {
        Some((0 - acc as i64) as c_int)
    } else if acc < limit {
        Some(acc as c_int)
    } else {
        None
    }
}

/// The text of one decimal digit.
pub open spec fn digit_char(d: nat) -> char {
    ('0' as nat + d) as char
}

/// A natural number in base ten, without leading zeros.
pub open spec fn decimal(n: nat) -> Seq<char>
    decreases n,
{
    if n < 10 {
        seq![digit_char(n)]
    } else {
        decimal(n / 10).push(digit_char(n % 10))
    }
}

/// A number written in base ten is digits, at least one, and denotes the
/// number.
pub proof fn lemma_decimal_digits(n: nat)
    ensures
        decimal(n).len() > 0,
        all_digits(decimal(n)),
        digits_value(decimal(n)) == n,
    decreases n,
{
    if n < 10 {
        let s = seq![digit_char(n)];
        assert(s.drop_last().len() == 0);
        assert(digits_value(s.drop_last()) == 0);
    } else {
        let head = decimal(n / 10);
        let c = digit_char(n % 10);
        lemma_decimal_digits(n / 10);
        lemma_digits_value_push(head, c);
        assert forall|i: int| 0 <= i < head.push(c).len() implies is_digit(
            #[trigger] head.push(c)[i],
        ) by {
            if i < head.len() {
                assert(head.push(c)[i] == head[i]);
            }
        }
    }
}

/// A number that a `c_int` can hold is read back from its text in base
/// ten.
pub proof fn lemma_decimal_value(n: nat)
    requires
        n <= c_int::MAX,
    ensures
        c_int_value(decimal(n)) == Some(n as c_int),
{
    lemma_decimal_digits(n);
    assert(is_digit(decimal(n)[0]));
}

/// The digit `d` as a text.
fn digit_text(d: usize) -> (r: &'static str)
    requires
        d < 10,
    ensures
        r@ == seq![digit_char(d as nat)],
{
    proof {
        reveal_strlit("0");
        reveal_strlit("1");
        reveal_strlit("2");
        reveal_strlit("3");
        reveal_strlit("4");
        reveal_strlit("5");
        reveal_strlit("6");
        reveal_strlit("7");
        reveal_strlit("8");
        reveal_strlit("9");
    }
    let r = match d {
        0 => "0",
        1 => "1",
        2 => "2",
        3 => "3",
        4 => "4",
        5 => "5",
        6 => "6",
        7 => "7",
        8 => "8",
        _ => "9",
    };
    assert(r@ =~= seq![digit_char(d as nat)]);
    r
}

/// Writes `n` in base ten.
pub fn decimal_text(n: usize) -> (r: String)
    ensures
        r@ == decimal(n as nat),
    decreases n,
{
    if n < 10 {
        String::from_str(digit_text(n))
    } else {
        let mut r = decimal_text(n / 10);
        r.append(digit_text(n % 10));
        proof {
            assert(decimal((n / 10) as nat) + seq![digit_char((n % 10) as nat)] == decimal(
                (n / 10) as nat,
            ).push(digit_char((n % 10) as nat)));
        }
        r
    }
}

} // verus!
