//! Years and months as references print them: numbers read the way
//! `str::parse` reads them, month numbers named by chrono, and month names
//! written in words capitalised.

use super::opt_view;
use crate::parsing::text::{chars_of, push_char};
use chrono::NaiveDate;
use vstd::prelude::*;
use vstd::string::StringExecFns;

verus! {

/// Whether `c` is one of `0` to `9`.
pub open spec fn is_digit(c: char) -> bool {
    '0' <= c && c <= '9'
}

/// Whether every character of `s` is a digit.
pub open spec fn all_digits(s: Seq<char>) -> bool {
    forall|i: int| 0 <= i < s.len() ==> #[trigger] is_digit(s[i])
}

/// The number that the decimal digits `s` write.
pub open spec fn digits_value(s: Seq<char>) -> int
    decreases s.len(),
{
    if s.len() == 0 {
        0
    } else {
        digits_value(s.drop_last()) * 10 + (s.last() as int - '0' as int)
    }
}

/// The digits of a number after its sign, if it has one.
pub open spec fn unsigned_digits(s: Seq<char>) -> Seq<char> {
    if s.len() > 0 && s[0] == '+' {
        s.skip(1)
    } else {
        s
    }
}

/// What `str::parse::<u32>` reads from `s`: an optional `+`, then one or more
/// decimal digits whose value fits in a `u32`.
pub open spec fn parse_u32_spec(s: Seq<char>) -> Option<u32> {
    let d = unsigned_digits(s);
    if d.len() > 0 && all_digits(d) && digits_value(d) <= u32::MAX {
        Some(digits_value(d) as u32)
    } else {
        None
    }
}

/// What `str::parse::<i32>` reads from `s`: an optional `+` or `-`, then one
/// or more decimal digits, whose signed value fits in an `i32`.
pub open spec fn parse_i32_spec(s: Seq<char>) -> Option<i32> {
    let neg = s.len() > 0 && s[0] == '-';
    let d = if neg { s.skip(1) } else { unsigned_digits(s) };
    let v = if neg { -digits_value(d) } else { digits_value(d) };
    if d.len() > 0 && all_digits(d) && i32::MIN <= v <= i32::MAX {
        Some(v as i32)
    } else {
        None
    }
}

proof fn lemma_digits_step(s: Seq<char>, i: int)
    requires
        0 <= i < s.len(),
    ensures
        digits_value(s.take(i + 1)) == digits_value(s.take(i)) * 10 + (s[i] as int - '0' as int),
{
    assert(s.take(i + 1).drop_last() =~= s.take(i));
}

proof fn lemma_digits_nonneg(s: Seq<char>)
    requires
        all_digits(s),
    ensures
        digits_value(s) >= 0,
    decreases s.len(),
{
    if s.len() > 0 {
        assert(all_digits(s.drop_last())) by {
            assert forall|i: int| 0 <= i < s.drop_last().len() implies #[trigger] is_digit(s.drop_last()[i]) by {
                assert(is_digit(s[i]));
            }
        }
        lemma_digits_nonneg(s.drop_last());
        assert(is_digit(s[s.len() - 1]));
    }
}

/// The value of the digits `cs[from..]`, if they are one or more digits and
/// their value is at most `bound`.
fn digits_at_most(cs: &Vec<char>, from: usize, bound: u64) -> (r: Option<u64>)
    requires
        from <= cs.len(),
        bound <= u32::MAX + 1,
    ensures
        ({
            let d = cs@.skip(from as int);
            match r {
                Some(v) => d.len() > 0 && all_digits(d) && v == digits_value(d) && v <= bound,
                None => !(d.len() > 0 && all_digits(d) && digits_value(d) <= bound),
            }
        }),
{
    let ghost d = cs@.skip(from as int);
    if from == cs.len() {
        assert(d.len() == 0);
        return None;
    }
    let mut acc: u64 = 0;
    let mut big = false;
    let mut i: usize = from;
    proof {
        assert(d.take(0) =~= Seq::<char>::empty());
    }
    while i < cs.len()
        invariant
            from <= i <= cs.len(),
            d == cs@.skip(from as int),
            bound <= u32::MAX + 1,
            all_digits(d.take(i - from)),
            big ==> digits_value(d.take(i - from)) > bound,
            !big ==> acc == digits_value(d.take(i - from)) && acc <= bound,
        decreases cs.len() - i,
    {
        let c = cs[i];
        if !('0' <= c && c <= '9') {
            proof {
                assert(d[i - from] == c);
                assert(!is_digit(d[i - from]));
            }
            return None;
        }
        proof {
            lemma_digits_step(d, i - from);
            assert(all_digits(d.take(i - from + 1))) by {
                assert forall|j: int| 0 <= j < d.take(i - from + 1).len() implies #[trigger] is_digit(d.take(i - from + 1)[j]) by {
                    if j < i - from {
                        assert(d.take(i - from + 1)[j] == d.take(i - from)[j]);
                    }
                }
            }
            lemma_digits_nonneg(d.take(i - from));
        }
        if !big {
            let digit = (c as u32 - '0' as u32) as u64;
            acc = acc * 10 + digit;
            if acc > bound {
                big = true;
            }
        }
        i = i + 1;
    }
    proof {
        assert(d.take(i - from) =~= d);
    }
    if big {
        None
    } else {
        Some(acc)
    }
}

/// `s.parse::<u32>()`, as std reads a `u32`.
pub fn parse_u32(s: &str) -> (r: Option<u32>)
    ensures
        r == parse_u32_spec(s@),
{
    let cs = chars_of(s);
    let from: usize = if cs.len() > 0 && cs[0] == '+' { 1 } else { 0 };
    proof {
        assert(cs@.skip(from as int) =~= unsigned_digits(s@));
    }
    match digits_at_most(&cs, from, 4294967295) {
        Some(v) => Some(v as u32),
        None => None,
    }
}

/// `s.parse::<i32>()`, as std reads an `i32`.
pub fn parse_i32(s: &str) -> (r: Option<i32>)
    ensures
        r == parse_i32_spec(s@),
{
    let cs = chars_of(s);
    let neg = cs.len() > 0 && cs[0] == '-';
    let from: usize = if cs.len() > 0 && (cs[0] == '+' || cs[0] == '-') { 1 } else { 0 };
    let bound: u64 = if neg { 2147483648 } else { 2147483647 };
    proof {
        if neg {
            assert(cs@.skip(from as int) =~= s@.skip(1));
        } else {
            assert(cs@.skip(from as int) =~= unsigned_digits(s@));
        }
    }
    match digits_at_most(&cs, from, bound) {
        Some(v) => {
            if neg {
                if v == 2147483648 {
                    Some(-2147483648i32)
                } else {
                    Some(-(v as i32))
                }
            } else {
                Some(v as i32)
            }
        },
        None => {
            proof {
                let d = cs@.skip(from as int);
                if d.len() > 0 && all_digits(d) {
                    lemma_digits_nonneg(d);
                }
            }
            None
        },
    }
}

/// The years that chrono's `NaiveDate` can hold.
pub open spec fn chrono_year(y: int) -> bool {
    -262143 <= y <= 262142
}

/// The English name of month `k` (1 to 12), as chrono's `%B` writes it.
pub open spec fn long_month_name(k: u32) -> Seq<char> {
    if k == 1 { "January"@ }
    else if k == 2 { "February"@ }
    else if k == 3 { "March"@ }
    else if k == 4 { "April"@ }
    else if k == 5 { "May"@ }
    else if k == 6 { "June"@ }
    else if k == 7 { "July"@ }
    else if k == 8 { "August"@ }
    else if k == 9 { "September"@ }
    else if k == 10 { "October"@ }
    else if k == 11 { "November"@ }
    else { "December"@ }
}

/// The abbreviated English name of month `k` (1 to 12), as chrono's `%b`
/// writes it.
pub open spec fn short_month_name(k: u32) -> Seq<char> {
    if k == 1 { "Jan"@ }
    else if k == 2 { "Feb"@ }
    else if k == 3 { "Mar"@ }
    else if k == 4 { "Apr"@ }
    else if k == 5 { "May"@ }
    else if k == 6 { "Jun"@ }
    else if k == 7 { "Jul"@ }
    else if k == 8 { "Aug"@ }
    else if k == 9 { "Sep"@ }
    else if k == 10 { "Oct"@ }
    else if k == 11 { "Nov"@ }
    else { "Dec"@ }
}

/// The name of month `k`, in full or abbreviated.
pub open spec fn month_name(k: u32, long: bool) -> Seq<char> {
    if long {
        long_month_name(k)
    } else {
        short_month_name(k)
    }
}

/// `NaiveDate::from_ymd_opt(year, month, 1)`, then `format(pattern)` and
/// `to_string()` on the date. chrono makes the date exactly when the month is
/// 1 to 12 and the year lies in its range; built without its locales, it
/// writes the English month names for `%B` (full) and `%b` (abbreviated).
#[verifier::external_body]
fn format_first_of_month(year: i32, month: u32, pattern: &str) -> (r: Option<String>)
    requires
        pattern@ == seq!['%', 'B'] || pattern@ == seq!['%', 'b'],
    ensures
        r is Some <==> (1 <= month <= 12 && chrono_year(year as int)),
        r matches Some(t) ==> t@ == month_name(month, pattern@ == seq!['%', 'B']),
{
    match NaiveDate::from_ymd_opt(year, month, 1) {
        Some(date) => Some(date.format(pattern).to_string()),
        None => None,
    }
}

/// Whether `c` is an ASCII character.
pub open spec fn is_ascii_char(c: char) -> bool {
    (c as u32) < 128
}

/// The ASCII upper case of `c`.
pub open spec fn ascii_upper(c: char) -> char {
    if 'a' <= c && c <= 'z' {
        ((c as u32) - 32) as char
    } else {
        c
    }
}

/// A word with its first letter, an ASCII one, in upper case.
pub open spec fn capitalised(m: Seq<char>) -> Seq<char> {
    seq![ascii_upper(m[0])] + m.skip(1)
}

/// The month as a reference prints it: the chrono name of a month number, else
/// the word capitalised.
pub open spec fn month_text(m: Seq<char>, long: bool) -> Seq<char> {
    match parse_u32_spec(m) {
        Some(k) => month_name(k, long),
        None => capitalised(m),
    }
}

/// Whether a year and a month can be printed: with a month, the year is an
/// `i32`, and the month is a month number of a year chrono can hold, or a word
/// that starts with an ASCII character.
pub open spec fn year_month_ok(year: Option<Seq<char>>, month: Option<Seq<char>>) -> bool {
    match (year, month) {
        (Some(y), Some(m)) => match parse_i32_spec(y) {
            Some(yv) => match parse_u32_spec(m) {
                Some(k) => 1 <= k <= 12 && chrono_year(yv as int),
                None => m.len() > 0 && is_ascii_char(m[0]),
            },
            None => false,
        },
        _ => true,
    }
}

/// Whether a year and a month can be printed.
pub fn check_year_month(year: Option<&String>, month: Option<&String>) -> (b: bool)
    ensures
        b == year_month_ok(opt_view(year), opt_view(month)),
{
    match (year, month) {
        (Some(y), Some(m)) => match parse_i32(y.as_str()) {
            Some(yv) => match parse_u32(m.as_str()) {
                Some(k) => 1 <= k && k <= 12 && -262143 <= yv && yv <= 262142,
                None => {
                    let cs = chars_of(m.as_str());
                    cs.len() > 0 && (cs[0] as u32) < 128
                },
            },
            None => false,
        },
        _ => true,
    }
}

/// The ASCII upper case of a character.
fn upper_ascii(c: char) -> (u: char)
    ensures
        u == ascii_upper(c),
{
    if 'a' <= c && c <= 'z' {
        let code: u8 = ((c as u32) - 32) as u8;
        code as char
    } else {
        c
    }
}

/// The month of a date in words: the chrono name of a month number, in full
/// or abbreviated, else the given word capitalised.
pub fn fmt_month(year: &str, month: &str, long: bool) -> (r: String)
    requires
        year_month_ok(Some(year@), Some(month@)),
    ensures
        r@ == month_text(month@, long),
{
    let y = parse_i32(year).unwrap();
    match parse_u32(month) {
        Some(k) => {
            if long {
                proof {
                    reveal_strlit("%B");
                    assert("%B"@ =~= seq!['%', 'B']);
                }
                format_first_of_month(y, k, "%B").unwrap()
            } else {
                proof {
                    reveal_strlit("%b");
                    assert("%b"@ =~= seq!['%', 'b']);
                    assert(seq!['%', 'b'] != seq!['%', 'B']) by {
                        assert(seq!['%', 'b'][1] != seq!['%', 'B'][1]);
                    }
                }
                format_first_of_month(y, k, "%b").unwrap()
            }
        },
        None => {
            let cs = chars_of(month);
            let mut r = String::new();
            push_char(&mut r, upper_ascii(cs[0]));
            let mut i: usize = 1;
            while i < cs.len()
                invariant
                    1 <= i <= cs.len(),
                    cs@ == month@,
                    r@ == seq![ascii_upper(cs@[0])] + cs@.subrange(1, i as int),
                decreases cs.len() - i,
            {
                push_char(&mut r, cs[i]);
                proof {
                    assert(cs@.subrange(1, i + 1) =~= cs@.subrange(1, i as int).push(cs@[i as int]));
                }
                i = i + 1;
            }
            proof {
                assert(cs@.subrange(1, cs@.len() as int) =~= month@.skip(1));
            }
            r
        },
    }
}

} // verus!
