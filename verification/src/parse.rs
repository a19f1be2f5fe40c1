//! Parsing the fixed Japanese date layout back into a timestamp.
//!
//! The parser first drops the parenthesized weekday portion — everything
//! from the first `(` through the first `)` — by concatenating what stands
//! before the one and after the other, and then matches the remainder
//! against the template `{year}年{MM}月{DD}日 {HH}時{MM}分{SS}秒`. The
//! weekday glyph is deliberately never checked against the date. The text
//! carries no zone information, so the result is read at offset zero and
//! with no sub-second part; callers resolve a zone with `with_offset`.

use vstd::prelude::*;
use vstd::string::*;

use crate::calendar::valid_ymd;
use crate::datetime::Timestamp;
use crate::format::{dec_digits, digit_char, kanji_of, spec_format, two_digits};

verus! {

/// Why a string was rejected: it does not have the template's shape, or a
/// calendar field lies outside its valid range.
#[derive(Clone, Copy, Debug, PartialEq, Eq, Structural)]
pub enum ParseError {
    Malformed,
    OutOfRange,
}

/// Whether `c` is a decimal digit.
pub open spec fn is_digit(c: char) -> bool {
    c == '0' || c == '1' || c == '2' || c == '3' || c == '4' || c == '5' || c == '6' || c == '7'
        || c == '8' || c == '9'
}

/// The value of a decimal digit character (-1 for anything else).
pub open spec fn digit_val(c: char) -> int {
    if c == '0' {
        0
    } else if c == '1' {
        1
    } else if c == '2' {
        2
    } else if c == '3' {
        3
    } else if c == '4' {
        4
    } else if c == '5' {
        5
    } else if c == '6' {
        6
    } else if c == '7' {
        7
    } else if c == '8' {
        8
    } else if c == '9' {
        9
    } else {
        -1
    }
}

/// Index of the first occurrence of `c` in `s`, or `s.len()` if absent.
pub open spec fn find_first(s: Seq<char>, c: char) -> int
    decreases s.len(),
{
    if s.len() == 0 {
        0
    } else if s[0] == c {
        0
    } else {
        1 + find_first(s.skip(1), c)
    }
}

/// Length of the run of decimal digits that `s` starts with.
pub open spec fn digit_run(s: Seq<char>) -> int
    decreases s.len(),
{
    if s.len() == 0 || !is_digit(s[0]) {
        0
    } else {
        1 + digit_run(s.skip(1))
    }
}

/// The value of a sequence of digit characters read in base ten.
pub open spec fn digits_val(s: Seq<char>) -> int
    decreases s.len(),
{
    if s.len() == 0 {
        0
    } else {
        digits_val(s.drop_last()) * 10 + digit_val(s.last())
    }
}

/// Drops the parenthesized portion: what stands before the first `(`,
/// followed by what stands after the first `)` (nothing, if there is no
/// `)` at all).
pub open spec fn strip_paren(s: Seq<char>) -> Seq<char> {
    let i = find_first(s, '(');
    let j = find_first(s, ')');
    s.take(i) + if j < s.len() {
        s.skip(j + 1)
    } else {
        Seq::empty()
    }
}

/// The value of the two digits of `t` at positions `i` and `i + 1`.
pub open spec fn field2_at(t: Seq<char>, i: int) -> int {
    digit_val(t[i]) * 10 + digit_val(t[i + 1])
}

/// Matches `t` against `{year}年{MM}月{DD}日 {HH}時{MM}分{SS}秒`: one to
/// four year digits, every other field exactly two digits. Yields the six
/// field values, unchecked against the calendar.
pub open spec fn spec_match(t: Seq<char>) -> Option<(int, int, int, int, int, int)> {
    let k = digit_run(t);
    if {
        &&& 1 <= k <= 4
        &&& t.len() == k + 17
        &&& t[k] == '年'
        &&& is_digit(t[k + 1]) && is_digit(t[k + 2]) && t[k + 3] == '月'
        &&& is_digit(t[k + 4]) && is_digit(t[k + 5]) && t[k + 6] == '日'
        &&& t[k + 7] == ' '
        &&& is_digit(t[k + 8]) && is_digit(t[k + 9]) && t[k + 10] == '時'
        &&& is_digit(t[k + 11]) && is_digit(t[k + 12]) && t[k + 13] == '分'
        &&& is_digit(t[k + 14]) && is_digit(t[k + 15]) && t[k + 16] == '秒'
    } {
        Some(
            (
                digits_val(t.take(k)),
                field2_at(t, k + 1),
                field2_at(t, k + 4),
                field2_at(t, k + 8),
                field2_at(t, k + 11),
                field2_at(t, k + 14),
            ),
        )
    } else {
        None
    }
}

/// The whole parse: strip the parenthesized weekday, match the template,
/// then hold the fields to the calendar. A failed match is `Malformed`; a
/// matched text with an impossible field is `OutOfRange`. The result is
/// read at offset zero with no sub-second part.
pub open spec fn spec_parse(s: Seq<char>) -> Result<Timestamp, ParseError> {
    match spec_match(strip_paren(s)) {
        Some((y, mo, d, h, mi, se)) => {
            if valid_ymd(y, mo, d) && h < 24 && mi < 60 && se < 60 {
                Ok(
                    Timestamp {
                        year: y as i64,
                        month: mo as u8,
                        day: d as u8,
                        hour: h as u8,
                        minute: mi as u8,
                        second: se as u8,
                        nanos: 0,
                        offset: 0,
                    },
                )
            } else {
                Err(ParseError::OutOfRange)
            }
        },
        None => Err(ParseError::Malformed),
    }
}

/// Ten to the power `n`.
spec fn pow10(n: nat) -> int
    decreases n,
{
    if n == 0 {
        1
    } else {
        10 * pow10((n - 1) as nat)
    }
}

proof fn lemma_find_first_is(s: Seq<char>, c: char, p: int)
    requires
        0 <= p <= s.len(),
        forall|j: int| 0 <= j < p ==> s[j] != c,
        p < s.len() ==> s[p] == c,
    ensures
        find_first(s, c) == p,
    decreases p + 1,
{
    if s.len() == 0 {
    } else if p == 0 {
    } else {
        assert(s[0] != c);
        lemma_find_first_is(s.skip(1), c, p - 1);
    }
}

proof fn lemma_digit_run_is(s: Seq<char>, p: int)
    requires
        0 <= p <= s.len(),
        forall|j: int| 0 <= j < p ==> is_digit(s[j]),
        p < s.len() ==> !is_digit(s[p]),
    ensures
        digit_run(s) == p,
    decreases p + 1,
{
    if s.len() == 0 {
    } else if p == 0 {
    } else {
        assert(is_digit(s[0]));
        lemma_digit_run_is(s.skip(1), p - 1);
    }
}

proof fn lemma_digits_val_bound(s: Seq<char>)
    requires
        forall|j: int| 0 <= j < s.len() ==> is_digit(s[j]),
    ensures
        0 <= digits_val(s) < pow10(s.len()),
    decreases s.len(),
{
    if s.len() > 0 {
        lemma_digits_val_bound(s.drop_last());
        assert(is_digit(s.last()));
        assert(0 <= digit_val(s.last()) <= 9);
        assert(digits_val(s.drop_last()) * 10 + 9 < pow10(s.len())) by (nonlinear_arith)
            requires
                0 <= digits_val(s.drop_last()) < pow10((s.len() - 1) as nat),
                pow10(s.len() as nat) == 10 * pow10((s.len() - 1) as nat),
        ;
    }
}

/// Appending one digit on the right multiplies the value by ten.
proof fn lemma_digits_val_step(s: Seq<char>, i: int)
    requires
        0 <= i < s.len(),
    ensures
        digits_val(s.take(i + 1)) == digits_val(s.take(i)) * 10 + digit_val(s[i]),
{
    assert(s.take(i + 1).drop_last() =~= s.take(i));
    assert(s.take(i + 1).last() == s[i]);
}

/// A plain decimal rendering is made of digits, has no more digits than
/// the value needs, and reads back to the value it came from.
pub proof fn lemma_dec_digits(n: int)
    requires
        0 <= n,
    ensures
        dec_digits(n).len() >= 1,
        forall|j: int| 0 <= j < dec_digits(n).len() ==> is_digit(#[trigger] dec_digits(n)[j]),
        digits_val(dec_digits(n)) == n,
        n < 10 ==> dec_digits(n).len() == 1,
        n < 100 ==> dec_digits(n).len() <= 2,
        n < 1000 ==> dec_digits(n).len() <= 3,
        n < 10000 ==> dec_digits(n).len() <= 4,
    decreases n,
{
    if n < 10 {
        let s1 = seq![digit_char(n)];
        assert(s1.drop_last() =~= Seq::<char>::empty());
        assert(digits_val(Seq::<char>::empty()) == 0);
        assert(s1.last() == digit_char(n));
        assert(digits_val(s1) == digit_val(digit_char(n)));
    } else {
        assert(0 <= n / 10 && 0 <= n % 10 <= 9 && n == (n / 10) * 10 + n % 10 && n / 10 < n && (n
            < 100 ==> n / 10 < 10) && (n < 1000 ==> n / 10 < 100) && (n < 10000 ==> n / 10
            < 1000)) by (nonlinear_arith)
            requires
                10 <= n,
        ;
        let q = n / 10;
        let r = n % 10;
        lemma_dec_digits(q);
        assert(dec_digits(n) == dec_digits(q) + seq![digit_char(r)]);
        assert(dec_digits(n).drop_last() =~= dec_digits(q));
        assert(dec_digits(n).last() == digit_char(r));
    }
}

/// A two-digit rendering is two digit characters that read back to the
/// value they came from.
pub proof fn lemma_two_digits(n: int)
    requires
        0 <= n < 100,
    ensures
        is_digit(two_digits(n)[0]),
        is_digit(two_digits(n)[1]),
        digit_val(two_digits(n)[0]) * 10 + digit_val(two_digits(n)[1]) == n,
{
    assert(0 <= n / 10 <= 9 && 0 <= n % 10 <= 9 && (n / 10) * 10 + n % 10 == n)
        by (nonlinear_arith)
        requires
            0 <= n < 100,
    ;
}

/// The round trip: parsing the Japanese rendering of any well-formed
/// timestamp succeeds and gives back its year, month, day, hour, minute
/// and second. (The zone offset and sub-second part are not carried by the
/// text, so they are not part of the guarantee.)
#[verifier::rlimit(60)]
pub proof fn lemma_format_parse_round_trip(t: Timestamp)
    requires
        t.wf(),
    ensures
        ({
            let r = spec_parse(spec_format(t));
            &&& r is Ok
            &&& r->Ok_0.year == t.year
            &&& r->Ok_0.month == t.month
            &&& r->Ok_0.day == t.day
            &&& r->Ok_0.hour == t.hour
            &&& r->Ok_0.minute == t.minute
            &&& r->Ok_0.second == t.second
        }),
{
    let y = t.year as int;
    let mo = t.month as int;
    let d = t.day as int;
    let h = t.hour as int;
    let mi = t.minute as int;
    let se = t.second as int;
    let yd = dec_digits(y);
    let k = yd.len() as int;
    let w = kanji_of(t.spec_weekday());
    let f = spec_format(t);
    lemma_dec_digits(y);
    lemma_two_digits(mo);
    lemma_two_digits(d);
    lemma_two_digits(h);
    lemma_two_digits(mi);
    lemma_two_digits(se);
    let mid = seq![
        '年',
        two_digits(mo)[0],
        two_digits(mo)[1],
        '月',
        two_digits(d)[0],
        two_digits(d)[1],
        '日',
        '(',
    ];
    let tail = seq![
        ')',
        ' ',
        two_digits(h)[0],
        two_digits(h)[1],
        '時',
        two_digits(mi)[0],
        two_digits(mi)[1],
        '分',
        two_digits(se)[0],
        two_digits(se)[1],
        '秒',
    ];
    assert(f =~= yd + mid + seq![w] + tail);
    assert(f.len() == k + 20);

    // The weekday glyph is one of the seven kanji, none of which is a
    // parenthesis or a digit.
    assert(w != '(' && w != ')' && !is_digit(w));

    // The first parentheses stand exactly around the weekday glyph.
    assert(forall|j: int| 0 <= j < k + 7 ==> #[trigger] f[j] != '(');
    assert(f[k + 7] == '(');
    lemma_find_first_is(f, '(', k + 7);
    assert(forall|j: int| 0 <= j < k + 9 ==> #[trigger] f[j] != ')');
    assert(f[k + 9] == ')');
    lemma_find_first_is(f, ')', k + 9);

    // Stripping removes `(W)` and nothing else.
    let stripped = strip_paren(f);
    let template = yd + seq![
        '年',
        two_digits(mo)[0],
        two_digits(mo)[1],
        '月',
        two_digits(d)[0],
        two_digits(d)[1],
        '日',
        ' ',
        two_digits(h)[0],
        two_digits(h)[1],
        '時',
        two_digits(mi)[0],
        two_digits(mi)[1],
        '分',
        two_digits(se)[0],
        two_digits(se)[1],
        '秒',
    ];
    assert(stripped =~= template);
    assert(stripped.len() == k + 17);

    // The digit run is exactly the year.
    assert(forall|j: int| 0 <= j < k ==> is_digit(#[trigger] stripped[j]));
    assert(stripped[k] == '年' && !is_digit('年'));
    lemma_digit_run_is(stripped, k);
    assert(stripped.take(k) =~= yd);

    // The template matches and every field reads back.
    assert(spec_match(stripped) == Some((y, mo, d, h, mi, se)));
    assert(valid_ymd(y, mo, d));
}

/// Executable digit test.
fn is_digit_x(c: char) -> (b: bool)
    ensures
        b == is_digit(c),
{
    c == '0' || c == '1' || c == '2' || c == '3' || c == '4' || c == '5' || c == '6' || c == '7'
        || c == '8' || c == '9'
}

/// Executable digit value.
fn digit_value(c: char) -> (d: u8)
    requires
        is_digit(c),
    ensures
        d as int == digit_val(c),
{
    match c {
        '0' => 0,
        '1' => 1,
        '2' => 2,
        '3' => 3,
        '4' => 4,
        '5' => 5,
        '6' => 6,
        '7' => 7,
        '8' => 8,
        _ => 9,
    }
}

/// Index of the first occurrence of `c` in `st`, or the character count
/// if `c` does not occur.
fn find_char(st: &str, c: char) -> (i: usize)
    requires
        st@.len() <= usize::MAX,
    ensures
        i as int == find_first(st@, c),
        i <= st@.len(),
{
    let n = st.unicode_len();
    let mut i: usize = 0;
    loop
        invariant
            i <= n,
            n == st@.len(),
            forall|j: int| 0 <= j < i ==> st@[j] != c,
        ensures
            i <= n,
            forall|j: int| 0 <= j < i ==> st@[j] != c,
            i < n ==> st@[i as int] == c,
        decreases n - i,
    {
        if i == n {
            break ;
        }
        if st.get_char(i) == c {
            break ;
        }
        i = i + 1;
    }
    proof {
        lemma_find_first_is(st@, c, i as int);
    }
    i
}

/// Parses the Japanese date layout. Succeeds exactly on strings whose
/// stripped form matches the template with all fields in calendar range;
/// the weekday between the parentheses is dropped unread.
pub fn parse_japan_date(s: &String) -> (r: Result<Timestamp, ParseError>)
    ensures
        r == spec_parse(s@),
{
    let st = s.as_str();
    let n = st.unicode_len();
    let i1 = find_char(st, '(');
    let i2 = find_char(st, ')');

    // Materialize the stripped text.
    let mut v: Vec<char> = Vec::new();
    let mut j: usize = 0;
    while j < i1
        invariant
            j <= i1,
            i1 <= st@.len(),
            n == st@.len(),
            v@ =~= st@.take(j as int),
        decreases i1 - j,
    {
        v.push(st.get_char(j));
        j = j + 1;
    }
    if i2 < n {
        let mut j2: usize = i2 + 1;
        while j2 < n
            invariant
                i2 < n,
                i2 + 1 <= j2 <= n,
                n == st@.len(),
                i1 <= st@.len(),
                v@ =~= st@.take(i1 as int) + st@.subrange(i2 + 1, j2 as int),
            decreases n - j2,
        {
            v.push(st.get_char(j2));
            j2 = j2 + 1;
        }
    }
    proof {
        assert(v@ =~= strip_paren(st@));
    }

    // Leading digit run: the year.
    let m = v.len();
    let mut k: usize = 0;
    loop
        invariant
            k <= m,
            m == v@.len(),
            forall|j: int| 0 <= j < k ==> is_digit(v@[j]),
        ensures
            k <= m,
            forall|j: int| 0 <= j < k ==> is_digit(v@[j]),
            k < m ==> !is_digit(v@[k as int]),
        decreases m - k,
    {
        if k == m {
            break ;
        }
        if !is_digit_x(v[k]) {
            break ;
        }
        k = k + 1;
    }
    proof {
        lemma_digit_run_is(v@, k as int);
    }

    if k < 1 || k > 4 {
        return Err(ParseError::Malformed);
    }
    if m != k + 17 {
        return Err(ParseError::Malformed);
    }
    if !(v[k] == '年' && v[k + 3] == '月' && v[k + 6] == '日' && v[k + 7] == ' ' && v[k + 10]
        == '時' && v[k + 13] == '分' && v[k + 16] == '秒') {
        return Err(ParseError::Malformed);
    }
    if !(is_digit_x(v[k + 1]) && is_digit_x(v[k + 2]) && is_digit_x(v[k + 4]) && is_digit_x(
        v[k + 5],
    ) && is_digit_x(v[k + 8]) && is_digit_x(v[k + 9]) && is_digit_x(v[k + 11]) && is_digit_x(
        v[k + 12],
    ) && is_digit_x(v[k + 14]) && is_digit_x(v[k + 15])) {
        return Err(ParseError::Malformed);
    }

    // The year value, digit by digit.
    let mut yv: u32 = 0;
    let mut i: usize = 0;
    while i < k
        invariant
            i <= k <= 4,
            k <= v@.len(),
            forall|j: int| 0 <= j < k ==> is_digit(v@[j]),
            yv as int == digits_val(v@.take(i as int)),
            yv <= 9999,
        decreases k - i,
    {
        proof {
            lemma_digits_val_step(v@, i as int);
            lemma_digits_val_bound(v@.take(i as int + 1));
            reveal_with_fuel(pow10, 5);
        }
        yv = yv * 10 + digit_value(v[i]) as u32;
        i = i + 1;
    }

    let mo = digit_value(v[k + 1]) * 10 + digit_value(v[k + 2]);
    let d = digit_value(v[k + 4]) * 10 + digit_value(v[k + 5]);
    let h = digit_value(v[k + 8]) * 10 + digit_value(v[k + 9]);
    let mi = digit_value(v[k + 11]) * 10 + digit_value(v[k + 12]);
    let se = digit_value(v[k + 14]) * 10 + digit_value(v[k + 15]);

    let year = yv as i64;
    if 1 <= mo && mo <= 12 && 1 <= d && d <= crate::calendar::month_length(year, mo) && h < 24 && mi
        < 60 && se < 60 {
        Ok(
            Timestamp {
                year,
                month: mo,
                day: d,
                hour: h,
                minute: mi,
                second: se,
                nanos: 0,
                offset: 0,
            },
        )
    } else {
        Err(ParseError::OutOfRange)
    }
}

} // verus!
