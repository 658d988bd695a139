//! Text helpers: white space, decimal numbers and conversions between text and bytes.

use vstd::prelude::*;
use vstd::string::*;
use vstd::utf8::*;

verus! {

/// `String::push` appends one character at the end of the string.
pub assume_specification[ std::string::String::push ](s: &mut std::string::String, ch: char)
    ensures
        final(s)@ == old(s)@.push(ch),
;

/// The error of `String::from_utf8`; nothing in it is read.
#[verifier::external_type_specification]
#[verifier::external_body]
pub struct ExFromUtf8Error(std::string::FromUtf8Error);

/// `String::from_utf8` succeeds exactly on well-formed UTF-8, and then holds the characters
/// that the bytes encode.
pub assume_specification[ std::string::String::from_utf8 ](vec: Vec<u8>) -> (res: Result<
    std::string::String,
    std::string::FromUtf8Error,
>)
    ensures
        match res {
            Ok(s) => valid_utf8(vec@) && s@ == decode_utf8(vec@),
            Err(_) => !valid_utf8(vec@),
        },
;

/// The characters with the Unicode property `White_Space`.
pub open spec fn is_white(c: char) -> bool {
    let n = c as u32;
    ||| 0x09 <= n <= 0x0d
    ||| n == 0x20
    ||| n == 0x85
    ||| n == 0xa0
    ||| n == 0x1680
    ||| 0x2000 <= n <= 0x200a
    ||| n == 0x2028
    ||| n == 0x2029
    ||| n == 0x202f
    ||| n == 0x205f
    ||| n == 0x3000
}

/// `s` without the white space at its start.
pub open spec fn trimmed_start(s: Seq<char>) -> Seq<char>
    decreases s.len(),
{
    if s.len() > 0 && is_white(s[0]) {
        trimmed_start(s.drop_first())
    } else {
        s
    }
}

/// `s` without the white space at its end.
pub open spec fn trimmed_end(s: Seq<char>) -> Seq<char>
    decreases s.len(),
{
    if s.len() > 0 && is_white(s.last()) {
        trimmed_end(s.drop_last())
    } else {
        s
    }
}

/// `s` without the white space at either end.
pub open spec fn trimmed(s: Seq<char>) -> Seq<char> {
    trimmed_end(trimmed_start(s))
}

/// Whether `c` is white space.
pub fn is_white_space(c: char) -> (res: bool)
    ensures
        res == is_white(c),
{
    let n: u32 = c as u32;
    (0x09 <= n && n <= 0x0d) || n == 0x20 || n == 0x85 || n == 0xa0 || n == 0x1680 || (0x2000 <= n
        && n <= 0x200a) || n == 0x2028 || n == 0x2029 || n == 0x202f || n == 0x205f || n == 0x3000
}

/// The characters of `s`, one by one.
pub fn chars_of(s: &str) -> (res: Vec<char>)
    ensures
        res@ == s@,
{
    let mut res: Vec<char> = Vec::new();
    for c in iter: s.chars()
        invariant
            res@ == iter.seq().take(iter.index()),
            iter.seq() == s@,
    {
        res.push(c);
    }
    res
}

/// The characters of `chars` from `from` up to `to`, as a string.
pub fn string_between(chars: &Vec<char>, from: usize, to: usize) -> (res: String)
    requires
        from <= to <= chars.len(),
    ensures
        res@ == chars@.subrange(from as int, to as int),
{
    let mut res = String::new();
    let mut i: usize = from;
    while i < to
        invariant
            from <= i <= to <= chars.len(),
            res@ == chars@.subrange(from as int, i as int),
        decreases to - i,
    {
        res.push(chars[i]);
        i = i + 1;
    }
    res
}

/// `s` without the white space at either end.
pub fn trim(s: &str) -> (res: String)
    ensures
        res@ == trimmed(s@),
{
    let chars = chars_of(s);
    let mut from: usize = 0;
    assert(chars@.skip(0) =~= chars@);
    while from < chars.len() && is_white_space(chars[from])
        invariant
            from <= chars.len(),
            trimmed_start(chars@) == trimmed_start(chars@.skip(from as int)),
        decreases chars.len() - from,
    {
        proof {
            assert(chars@.skip(from as int).drop_first() =~= chars@.skip(from + 1));
        }
        from = from + 1;
    }
    let mut to: usize = chars.len();
    let ghost start = chars@.skip(from as int);
    assert(start =~= chars@.subrange(from as int, to as int));
    while to > from && is_white_space(chars[to - 1])
        invariant
            from <= to <= chars.len(),
            trimmed_end(start) == trimmed_end(chars@.subrange(from as int, to as int)),
        decreases to,
    {
        proof {
            let cut = chars@.subrange(from as int, to as int);
            assert(cut.drop_last() =~= chars@.subrange(from as int, to - 1));
        }
        to = to - 1;
    }
    string_between(&chars, from, to)
}

/// The decimal digit `d`, which is below ten, as a character.
pub open spec fn digit_char(d: nat) -> char {
    (d + 48) as char
}

/// Whether `c` is one of `0` to `9`.
pub open spec fn is_digit(c: char) -> bool {
    '0' <= c <= '9'
}

/// `n` in decimal, without leading zeros.
pub open spec fn decimal(n: nat) -> Seq<char>
    decreases n,
{
    if n < 10 {
        seq![digit_char(n)]
    } else {
        decimal(n / 10).push(digit_char(n % 10))
    }
}

/// The number that the digits `s` write in decimal.
pub open spec fn decimal_value(s: Seq<char>) -> nat
    decreases s.len(),
{
    if s.len() == 0 {
        0
    } else {
        decimal_value(s.drop_last()) * 10 + (s.last() as nat - 48) as nat
    }
}

/// `s` without a `+` in front.
pub open spec fn without_plus(s: Seq<char>) -> Seq<char> {
    if s.len() > 0 && s[0] == '+' {
        s.drop_first()
    } else {
        s
    }
}

/// What `s` writes as an unsigned number of 64 bits: one or more digits, behind an optional `+`.
pub open spec fn parsed_u64(s: Seq<char>) -> Option<u64> {
    let digits = without_plus(s);
    if digits.len() > 0 && (forall|i: int| 0 <= i < digits.len() ==> is_digit(#[trigger] digits[i]))
        && decimal_value(digits) <= u64::MAX {
        Some(decimal_value(digits) as u64)
    } else {
        None
    }
}

/// Writing a number in decimal and reading it back gives the number.
pub proof fn decimal_reads_back(n: u64)
    ensures
        parsed_u64(decimal(n as nat)) == Some(n),
{
    lemma_decimal(n as nat);
}

proof fn lemma_decimal(n: nat)
    ensures
        decimal(n).len() > 0,
        forall|i: int| 0 <= i < decimal(n).len() ==> is_digit(#[trigger] decimal(n)[i]),
        decimal_value(decimal(n)) == n,
    decreases n,
{
    if n < 10 {
        let s = decimal(n);
        assert(s.drop_last() =~= Seq::empty());
        assert(decimal_value(s.drop_last()) == 0);
        assert(s.last() as nat == n + 48);
    } else {
        lemma_decimal(n / 10);
        let s = decimal(n);
        assert(s.drop_last() =~= decimal(n / 10));
        assert(s.last() as nat == n % 10 + 48);
    }
}

/// `n` in decimal.
pub fn u64_to_text(n: u64) -> (res: String)
    ensures
        res@ == decimal(n as nat),
    decreases n,
{
    let digit: u8 = (n % 10) as u8 + 48;
    let mut res = if n < 10 {
        String::new()
    } else {
        u64_to_text(n / 10)
    };
    res.push(digit as char);
    proof {
        if n < 10 {
            assert(res@ =~= decimal(n as nat));
        }
    }
    res
}

proof fn lemma_value_grows(s: Seq<char>, k: int)
    requires
        0 <= k <= s.len(),
    ensures
        decimal_value(s.take(k)) <= decimal_value(s),
    decreases s.len() - k,
{
    if k == s.len() {
        assert(s.take(k) =~= s);
    } else {
        lemma_value_grows(s, k + 1);
        assert(s.take(k + 1).drop_last() =~= s.take(k));
    }
}

/// Reads an unsigned number of 64 bits: one or more digits, behind an optional `+`.
pub fn parse_u64(s: &str) -> (res: Option<u64>)
    ensures
        res == parsed_u64(s@),
{
    let chars = chars_of(s);
    let start: usize = if chars.len() > 0 && chars[0] == '+' {
        1
    } else {
        0
    };
    let ghost digits = without_plus(s@);
    assert(digits =~= chars@.skip(start as int));
    if start == chars.len() {
        return None;
    }
    let mut value: u64 = 0;
    let mut i: usize = start;
    while i < chars.len()
        invariant
            start <= i <= chars.len(),
            start <= 1,
            digits == chars@.skip(start as int),
            digits.len() > 0,
            digits == without_plus(s@),
            value == decimal_value(digits.take(i - start)),
            forall|j: int| 0 <= j < i - start ==> is_digit(#[trigger] digits[j]),
        decreases chars.len() - i,
    {
        let c = chars[i];
        proof {
            let k = i - start;
            assert(digits[k] == c);
            assert(digits.take(k + 1).drop_last() =~= digits.take(k));
            lemma_value_grows(digits, k + 1);
        }
        if !(c >= '0' && c <= '9') {
            return None;
        }
        let digit: u64 = c as u64 - 48;
        if value > (u64::MAX - digit) / 10 {
            assert(digits.take(i - start + 1).last() == c);
            assert(value * 10 + digit > u64::MAX);
            return None;
        }
        value = value * 10 + digit;
        i = i + 1;
    }
    proof {
        assert(digits.take(digits.len() as int) =~= digits);
    }
    Some(value)
}

/// Whether `a` and `b` are the same text.
pub fn same_text(a: &str, b: &str) -> (res: bool)
    ensures
        res == (a@ == b@),
{
    a.to_string() == b.to_string()
}

/// `a` with `b` behind it.
pub fn concat(a: &str, b: &str) -> (res: String)
    ensures
        res@ == a@ + b@,
{
    let mut res = a.to_string();
    res.append(b);
    res
}

/// The texts of `v`.
pub open spec fn text_views(v: Seq<String>) -> Seq<Seq<char>> {
    v.map_values(|s: String| s@)
}

/// The text in `s`, if there is one.
pub open spec fn opt_text_view(s: Option<String>) -> Option<Seq<char>> {
    match s {
        Some(s) => Some(s@),
        None => None,
    }
}

/// The text that `s` refers to, if there is one.
pub open spec fn opt_str_view(s: Option<&str>) -> Option<Seq<char>> {
    match s {
        Some(s) => Some(s@),
        None => None,
    }
}

/// Trimming takes the white space off both ends, and nothing else: what stands in the middle and
/// neither begins nor ends with white space is left as it is.
pub proof fn trimming_leaves_the_middle(before: Seq<char>, middle: Seq<char>, behind: Seq<char>)
    requires
        forall|i: int| 0 <= i < before.len() ==> is_white(#[trigger] before[i]),
        forall|i: int| 0 <= i < behind.len() ==> is_white(#[trigger] behind[i]),
        middle.len() > 0 ==> !is_white(middle[0]) && !is_white(middle.last()),
    ensures
        trimmed(before + middle + behind) == middle,
    decreases before.len() + behind.len(),
{
    let whole = before + middle + behind;
    if before.len() > 0 {
        let less = before.drop_first();
        assert(whole[0] == before[0]);
        assert(whole.drop_first() =~= less + middle + behind);
        assert forall|i: int| 0 <= i < less.len() implies is_white(#[trigger] less[i]) by {
            assert(less[i] == before[i + 1]);
        }
        trimming_leaves_the_middle(less, middle, behind);
    } else if middle.len() == 0 {
        if behind.len() > 0 {
            let less = behind.drop_first();
            assert(whole =~= behind);
            assert(whole[0] == behind[0]);
            assert(whole.drop_first() =~= before + middle + less);
            assert forall|i: int| 0 <= i < less.len() implies is_white(#[trigger] less[i]) by {
                assert(less[i] == behind[i + 1]);
            }
            trimming_leaves_the_middle(before, middle, less);
        } else {
            assert(whole =~= middle);
        }
    } else {
        assert(whole[0] == middle[0]);
        lemma_trimmed_tail(middle, behind);
        assert(whole =~= middle + behind);
    }
}

proof fn lemma_trimmed_tail(middle: Seq<char>, behind: Seq<char>)
    requires
        forall|i: int| 0 <= i < behind.len() ==> is_white(#[trigger] behind[i]),
        middle.len() > 0,
        !is_white(middle.last()),
    ensures
        trimmed_end(middle + behind) == middle,
    decreases behind.len(),
{
    let whole = middle + behind;
    if behind.len() > 0 {
        let less = behind.drop_last();
        assert(whole.last() == behind.last());
        assert(whole.drop_last() =~= middle + less);
        lemma_trimmed_tail(middle, less);
    } else {
        assert(whole =~= middle);
    }
}

/// Writing a number and reading it back gives the number.
pub proof fn written_number_reads_back(n: u64, written: String, text: &str, read: Option<u64>)
    requires
        call_ensures(u64_to_text, (n,), written),
        text@ == written@,
        call_ensures(parse_u64, (text,), read),
    ensures
        read == Some(n),
{
    decimal_reads_back(n);
}

/// The number that digits write grows by one digit at a time, and is lost where it does not fit:
/// with a further digit it is ten times as large, plus that digit. Anything but a digit, and
/// nothing at all, writes no number; a plus sign in front does not count.
pub proof fn digits_are_read_one_by_one(
    shorter: &str,
    digit: char,
    longer: &str,
    signed: &str,
    less: Option<u64>,
    more: Option<u64>,
    with_sign: Option<u64>,
)
    requires
        call_ensures(parse_u64, (shorter,), less),
        call_ensures(parse_u64, (longer,), more),
        call_ensures(parse_u64, (signed,), with_sign),
        shorter@.len() > 0,
        shorter@[0] != '+',
        longer@ == shorter@.push(digit),
        signed@ == seq!['+'] + longer@,
    ensures
        less is Some && '0' <= digit <= '9' && less.unwrap() * 10 + (digit as int - 48) <= u64::MAX
            ==> more is Some && more.unwrap() == less.unwrap() * 10 + (digit as int - 48),
        !('0' <= digit <= '9') ==> more is None,
        less is Some && '0' <= digit <= '9' && less.unwrap() * 10 + (digit as int - 48) > u64::MAX
            ==> more is None,
        less is None ==> more is None,
        with_sign == more,
{
    let s = shorter@;
    let l = longer@;
    assert(l.drop_last() =~= s);
    assert(l[0] == s[0]);
    assert(without_plus(s) == s);
    assert(without_plus(l) == l);
    assert(signed@.drop_first() =~= l);
    if less is Some {
        assert forall|i: int| 0 <= i < l.len() && '0' <= digit <= '9' implies is_digit(
            #[trigger] l[i],
        ) by {
            if i < s.len() {
                assert(is_digit(s[i]));
            }
        }
        assert(decimal_value(l) == decimal_value(s) * 10 + (digit as nat - 48) as nat);
    }
    if !('0' <= digit <= '9') {
        assert(!is_digit(l[s.len() as int]));
    }
    if more is Some {
        assert forall|i: int| 0 <= i < s.len() implies is_digit(#[trigger] s[i]) by {
            assert(is_digit(l[i]));
        }
    }
}

/// A text without any digit writes no number, and a single digit writes its own, with or without a
/// plus sign.
pub proof fn short_texts_are_read(text: &str, read: Option<u64>)
    requires
        call_ensures(parse_u64, (text,), read),
    ensures
        text@.len() == 0 ==> read is None,
        text@.len() == 1 && '0' <= text@[0] <= '9' ==> read is Some && read.unwrap()
            == text@[0] as int - 48,
        text@.len() == 1 && !('0' <= text@[0] <= '9') ==> read is None,
        text@.len() == 2 && text@[0] == '+' && '0' <= text@[1] <= '9' ==> read is Some
            && read.unwrap() == text@[1] as int - 48,
{
    let s = text@;
    if s.len() == 2 && s[0] == '+' && '0' <= s[1] <= '9' {
        let d = without_plus(s);
        assert(d =~= seq![s[1]]);
        assert(d.drop_last() =~= Seq::empty());
        assert(decimal_value(d.drop_last()) == 0);
        assert(decimal_value(d) == s[1] as int - 48);
    }
    if s.len() == 1 {
        assert(s.drop_last() =~= Seq::empty());
        assert(decimal_value(s.drop_last()) == 0);
        if '0' <= s[0] <= '9' {
            assert(without_plus(s) == s);
            assert(decimal_value(s) == s[0] as int - 48);
        } else if s[0] == '+' {
            assert(without_plus(s).len() == 0);
        } else {
            assert(!is_digit(s[0]));
        }
    }
}

/// Of the ASCII characters the space, the tabulators, the line feed, the form feed and the
/// carriage return are white space; of the others the next-line sign, the spaces of all widths and
/// the line and paragraph separators are.
pub proof fn white_space_characters(c: char, white: bool)
    requires
        call_ensures(is_white_space, (c,), white),
    ensures
        (c as u32) < 0x80 ==> (white <==> c == ' ' || c == '\t' || c == '\n' || c == '\r' || c as u32
            == 0x0b || c as u32 == 0x0c),
        0x80 <= (c as u32) < 0x2000 ==> (white <==> c as u32 == 0x85 || c as u32 == 0xa0 || c as u32
            == 0x1680),
        0x2000 <= (c as u32) ==> (white <==> c as u32 <= 0x200a || c as u32 == 0x2028 || c as u32
            == 0x2029 || c as u32 == 0x202f || c as u32 == 0x205f || c as u32 == 0x3000),
{
}

/// Trimming takes the white space off both ends, and nothing else.
pub proof fn trimming_takes_white_space_off(
    text: &str,
    before: Seq<char>,
    middle: Seq<char>,
    behind: Seq<char>,
    res: String,
)
    requires
        call_ensures(trim, (text,), res),
        text@ == before + middle + behind,
        forall|i: int| 0 <= i < before.len() ==> is_white(#[trigger] before[i]),
        forall|i: int| 0 <= i < behind.len() ==> is_white(#[trigger] behind[i]),
        middle.len() > 0 ==> !is_white(middle[0]) && !is_white(middle.last()),
    ensures
        res@ == middle,
{
    trimming_leaves_the_middle(before, middle, behind);
}

proof fn lemma_no_leading_zero(n: nat)
    requires
        n > 0,
    ensures
        decimal(n).len() > 0,
        decimal(n)[0] != '0',
    decreases n,
{
    if n >= 10 {
        lemma_no_leading_zero(n / 10);
        assert(decimal(n)[0] == decimal(n / 10)[0]);
    } else {
        assert((n + 48) as char as nat == n + 48);
    }
}

/// A number is written without zeros in front, and zero as a single digit.
pub proof fn number_is_written_without_spare_zeros(n: u64, written: String)
    requires
        call_ensures(u64_to_text, (n,), written),
    ensures
        written@.len() > 0,
        n > 0 ==> written@[0] != '0',
        n == 0 ==> written@ == seq!['0'],
        forall|i: int| 0 <= i < written@.len() ==> '0' <= #[trigger] written@[i] <= '9',
{
    lemma_decimal(n as nat);
    if n > 0 {
        lemma_no_leading_zero(n as nat);
    }
    assert forall|i: int| 0 <= i < written@.len() implies '0' <= #[trigger] written@[i] <= '9' by {
        assert(is_digit(decimal(n as nat)[i]));
    }
}

} // verus!
