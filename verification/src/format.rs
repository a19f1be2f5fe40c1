//! Rendering a timestamp in the fixed Japanese-locale layout
//! `YYYY年MM月DD日(W) HH時MM分SS秒`, with the weekday as one kanji glyph.

use vstd::prelude::*;
use vstd::string::*;

use crate::datetime::{Timestamp, Weekday};

verus! {

/// The decimal digit character for a value 0..=9 (a question mark stands
/// in for anything else, which no well-formed input produces).
pub open spec fn digit_char(d: int) -> char {
    if d == 0 {
        '0'
    } else if d == 1 {
        '1'
    } else if d == 2 {
        '2'
    } else if d == 3 {
        '3'
    } else if d == 4 {
        '4'
    } else if d == 5 {
        '5'
    } else if d == 6 {
        '6'
    } else if d == 7 {
        '7'
    } else if d == 8 {
        '8'
    } else if d == 9 {
        '9'
    } else {
        '?'
    }
}

/// A nonnegative value as two decimal digits, zero-padded.
pub open spec fn two_digits(n: int) -> Seq<char> {
    seq![digit_char(n / 10), digit_char(n % 10)]
}

/// A nonnegative value in plain decimal, no padding: at least one digit,
/// no leading zero unless the value is zero.
pub open spec fn dec_digits(n: int) -> Seq<char>
    decreases n,
{
    if n < 10 {
        seq![digit_char(n)]
    } else {
        dec_digits(n / 10) + seq![digit_char(n % 10)]
    }
}

/// The kanji glyph for a weekday.
pub open spec fn kanji_of(w: Weekday) -> char {
    match w {
        Weekday::Mon => '月',
        Weekday::Tue => '火',
        Weekday::Wed => '水',
        Weekday::Thu => '木',
        Weekday::Fri => '金',
        Weekday::Sat => '土',
        Weekday::Sun => '日',
    }
}

/// The full Japanese rendering of a timestamp: unpadded year, two-digit
/// month, day, hour, minute and second, and the weekday glyph between
/// parentheses after the day.
pub open spec fn spec_format(t: Timestamp) -> Seq<char> {
    dec_digits(t.year as int) + seq!['年'] + two_digits(t.month as int) + seq!['月'] + two_digits(
        t.day as int,
    ) + seq!['日', '('] + seq![kanji_of(t.spec_weekday())] + seq![')', ' '] + two_digits(
        t.hour as int,
    ) + seq!['時'] + two_digits(t.minute as int) + seq!['分'] + two_digits(t.second as int)
        + seq!['秒']
}

/// A one-character string slice for a decimal digit value.
fn digit_str(d: u8) -> (r: &'static str)
    requires
        d < 10,
    ensures
        r@ == seq![digit_char(d as int)],
{
    proof {
        reveal_strlit("0");
        reveal_strlit("1");
        reveal_strlit("2");
        reveal_strlit("3");
        reveal_strlit("4");
        reveal_strlit("5");
        reveal_strlit("6");
        reveal_strlit("7");
        reveal_strlit("8");
        reveal_strlit("9");
    }
    let r: &'static str = match d {
        0 => "0",
        1 => "1",
        2 => "2",
        3 => "3",
        4 => "4",
        5 => "5",
        6 => "6",
        7 => "7",
        8 => "8",
        _ => "9",
    };
    proof {
        assert(r@ =~= seq![digit_char(d as int)]);
    }
    r
}

/// Appends a value below 100 as two zero-padded digits.
fn push_two_digits(out: &mut String, n: u8)
    requires
        n < 100,
    ensures
        final(out)@ == old(out)@ + two_digits(n as int),
{
    out.append(digit_str(n / 10));
    out.append(digit_str(n % 10));
    proof {
        assert(final(out)@ =~= old(out)@ + two_digits(n as int));
    }
}

/// Appends a value in plain decimal, most significant digit first.
fn push_decimal(out: &mut String, n: u32)
    ensures
        final(out)@ == old(out)@ + dec_digits(n as int),
    decreases n,
{
    if n < 10 {
        out.append(digit_str(n as u8));
    } else {
        push_decimal(out, n / 10);
        out.append(digit_str((n % 10) as u8));
        proof {
            assert(final(out)@ =~= old(out)@ + dec_digits(n as int));
        }
    }
}

/// The kanji for a weekday, as a string slice.
pub fn format_japan_weekday(weekday: &Weekday) -> (r: &'static str)
    ensures
        r@ == seq![kanji_of(*weekday)],
{
    proof {
        reveal_strlit("月");
        reveal_strlit("火");
        reveal_strlit("水");
        reveal_strlit("木");
        reveal_strlit("金");
        reveal_strlit("土");
        reveal_strlit("日");
    }
    let r: &'static str = match weekday {
        Weekday::Mon => "月",
        Weekday::Tue => "火",
        Weekday::Wed => "水",
        Weekday::Thu => "木",
        Weekday::Fri => "金",
        Weekday::Sat => "土",
        Weekday::Sun => "日",
    };
    proof {
        assert(r@ =~= seq![kanji_of(*weekday)]);
    }
    r
}

/// Renders a timestamp in the fixed Japanese layout. The output is exactly
/// `spec_format`: year unpadded, all other fields two digits, weekday kanji
/// between parentheses.
pub fn format_japan_date(datetime: &Timestamp) -> (s: String)
    requires
        datetime.wf(),
    ensures
        s@ == spec_format(*datetime),
{
    proof {
        reveal_strlit("年");
        reveal_strlit("月");
        reveal_strlit("日(");
        reveal_strlit(") ");
        reveal_strlit("時");
        reveal_strlit("分");
        reveal_strlit("秒");
    }
    let mut s = String::new();
    push_decimal(&mut s, datetime.year as u32);
    s.append("年");
    push_two_digits(&mut s, datetime.month);
    s.append("月");
    push_two_digits(&mut s, datetime.day);
    s.append("日(");
    let w = datetime.weekday();
    s.append(format_japan_weekday(&w));
    s.append(") ");
    push_two_digits(&mut s, datetime.hour);
    s.append("時");
    push_two_digits(&mut s, datetime.minute);
    s.append("分");
    push_two_digits(&mut s, datetime.second);
    s.append("秒");
    proof {
        assert(s@ =~= spec_format(*datetime));
    }
    s
}

} // verus!
