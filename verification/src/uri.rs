//! `file:` URIs and the paths that they name.

use crate::path::{named_pieces, pieces, same_path, FilePath, SLASH};
use crate::text::{chars_of, string_between};
use vstd::prelude::*;
use vstd::slice::*;
use vstd::string::*;
use vstd::utf8::*;

verus! {

/// What every URI of a file starts with.
pub open spec fn file_scheme() -> Seq<char> {
    "file:///"@
}

/// The value of the hexadecimal digit `b`, if it is one.
pub open spec fn hex_value(b: u8) -> Option<u8> {
    if 0x30 <= b <= 0x39 {
        Some((b - 0x30) as u8)
    } else if 0x41 <= b <= 0x46 {
        Some((b - 0x37) as u8)
    } else if 0x61 <= b <= 0x66 {
        Some((b - 0x57) as u8)
    } else {
        None
    }
}

/// Whether `s` starts with a percent sign and two hexadecimal digits.
pub open spec fn starts_with_escape(s: Seq<u8>) -> bool {
    s.len() >= 3 && s[0] == 0x25 && hex_value(s[1]) is Some && hex_value(s[2]) is Some
}

/// `s` with each percent sign that two hexadecimal digits follow replaced, together with them, by
/// the byte they write; every other byte stays.
pub open spec fn percent_decoded(s: Seq<u8>) -> Seq<u8>
    decreases s.len(),
{
    if s.len() == 0 {
        Seq::empty()
    } else if starts_with_escape(s) {
        seq![(hex_value(s[1]).unwrap() * 16 + hex_value(s[2]).unwrap()) as u8] + percent_decoded(
            s.skip(3),
        )
    } else {
        seq![s[0]] + percent_decoded(s.skip(1))
    }
}

/// Calls `percent_encoding::percent_decode_str` and `decode_utf8` on its result. The claim: the
/// text that the percent-decoded bytes of `text` encode, and `None` exactly where they are not
/// well-formed UTF-8.
#[verifier::external_body]
fn percent_decode_utf8(text: &str) -> (res: Option<String>)
    ensures
        match res {
            Some(s) => encode_utf8(s@) == percent_decoded(encode_utf8(text@)),
            None => !valid_utf8(percent_decoded(encode_utf8(text@))),
        },
{
    percent_encoding::percent_decode_str(text).decode_utf8().ok().map(|decoded| decoded.into_owned())
}

/// What `String::from_utf8_lossy` makes of bytes that are not well-formed UTF-8.
pub uninterp spec fn lossy_text(bytes: Seq<u8>) -> Seq<char>;

/// The text shown for `bytes`.
pub open spec fn shown_text(bytes: Seq<u8>) -> Seq<char> {
    if valid_utf8(bytes) {
        decode_utf8(bytes)
    } else {
        lossy_text(bytes)
    }
}

/// Calls `String::from_utf8_lossy`. The claim: on well-formed UTF-8 the result is the text that
/// the bytes encode, and on other bytes it depends on the bytes alone. What stands for the
/// malformed bytes is left unsaid.
#[verifier::external_body]
pub(crate) fn text_lossy(bytes: &Vec<u8>) -> (res: String)
    ensures
        valid_utf8(bytes@) ==> res@ == decode_utf8(bytes@),
        !valid_utf8(bytes@) ==> res@ == lossy_text(bytes@),
{
    String::from_utf8_lossy(bytes).into_owned()
}

/// The text behind the scheme of a `file:` URI, percent-decoded, as bytes; `None` where `uri` has
/// another scheme or where the decoded bytes are not well-formed UTF-8.
pub open spec fn uri_body(uri: Seq<char>) -> Option<Seq<u8>> {
    if file_scheme().is_prefix_of(uri) {
        let body = percent_decoded(encode_utf8(uri.skip(8)));
        if valid_utf8(body) {
            Some(body)
        } else {
            None
        }
    } else {
        None
    }
}

/// The Unix path that `uri` names.
pub open spec fn uri_path(uri: Seq<char>) -> Option<Seq<u8>> {
    match uri_body(uri) {
        Some(body) => Some(seq![SLASH] + body),
        None => None,
    }
}

/// `body` as a Windows path: without a slash in front of a drive letter, and with backslashes for
/// slashes.
pub open spec fn windows_path(body: Seq<u8>) -> Seq<u8> {
    let path = if body.len() >= 3 && body[0] == SLASH && body[2] == 0x3a {
        body.skip(1)
    } else {
        body
    };
    path.map_values(|b: u8| if b == SLASH { 0x5c } else { b })
}

/// The URI that names the path `p` in notifications.
pub open spec fn path_uri(p: Seq<u8>) -> Seq<char> {
    file_scheme() + shown_text(p).map_values(|c: char| if c == '\\' { '/' } else { c })
}

/// The percent-decoded bytes behind the scheme of a `file:` URI.
pub fn decode_file_uri(uri: &str) -> (res: Option<Vec<u8>>)
    ensures
        match res {
            Some(body) => uri_body(uri@) == Some(body@),
            None => uri_body(uri@) is None,
        },
{
    let chars = chars_of(uri);
    let scheme = chars_of("file:///");
    proof {
        reveal_strlit("file:///");
    }
    if chars.len() < scheme.len() {
        return None;
    }
    let mut i: usize = 0;
    while i < scheme.len()
        invariant
            i <= scheme.len() <= chars.len(),
            chars@ == uri@,
            scheme@ == file_scheme(),
            forall|j: int| 0 <= j < i ==> scheme@[j] == #[trigger] chars@[j],
        decreases scheme.len() - i,
    {
        if chars[i] != scheme[i] {
            assert(uri@.subrange(0, scheme@.len() as int)[i as int] != scheme@[i as int]);
            return None;
        }
        i = i + 1;
    }
    assert(file_scheme() =~= uri@.subrange(0, file_scheme().len() as int));
    let rest = string_between(&chars, 8, chars.len());
    assert(rest@ =~= uri@.skip(8));
    match percent_decode_utf8(rest.as_str()) {
        Some(decoded) => {
            proof {
                encode_utf8_valid_utf8(decoded@);
            }
            Some(slice_to_vec(decoded.as_str().as_bytes()))
        },
        None => None,
    }
}

/// Converts a `file:` URI to a Unix path.
pub fn uri_to_path(uri: &str) -> (res: Option<FilePath>)
    ensures
        match res {
            Some(p) => uri_path(uri@) == Some(p@),
            None => uri_path(uri@) is None,
        },
{
    match decode_file_uri(uri) {
        Some(mut body) => {
            let ghost text = body@;
            let mut bytes: Vec<u8> = Vec::new();
            bytes.push(SLASH);
            bytes.append(&mut body);
            assert(bytes@ =~= seq![SLASH] + text);
            Some(FilePath { bytes })
        },
        None => None,
    }
}

/// Converts a `file:` URI to a Windows path.
pub fn uri_to_windows_path(uri: &str) -> (res: Option<FilePath>)
    ensures
        match res {
            Some(p) => uri_body(uri@) is Some && p@ == windows_path(uri_body(uri@).unwrap()),
            None => uri_body(uri@) is None,
        },
{
    match decode_file_uri(uri) {
        Some(body) => {
            let start: usize = if body.len() >= 3 && body[0] == SLASH && body[2] == 0x3a {
                1
            } else {
                0
            };
            let mut bytes: Vec<u8> = Vec::new();
            let ghost path = body@.skip(start as int);
            let ghost turn = |b: u8| if b == SLASH { 0x5cu8 } else { b };
            assert(body@.skip(0) =~= body@);
            let mut i: usize = start;
            while i < body.len()
                invariant
                    start <= i <= body.len(),
                    path == body@.skip(start as int),
                    turn == (|b: u8| if b == SLASH { 0x5cu8 } else { b }),
                    bytes@ == path.take(i - start).map_values(turn),
                decreases body.len() - i,
            {
                let b: u8 = body[i];
                let turned: u8 = if b == SLASH { 0x5c } else { b };
                bytes.push(turned);
                proof {
                    assert(path[i - start] == b);
                    assert(bytes@ =~= path.take(i - start + 1).map_values(turn));
                }
                i = i + 1;
            }
            proof {
                assert(path.take(path.len() as int) =~= path);
                assert(bytes@ =~= windows_path(body@));
            }
            Some(FilePath { bytes })
        },
        None => None,
    }
}

/// The URI that names `path` in notifications: its text, with slashes for backslashes.
pub fn path_to_uri(path: &FilePath) -> (res: String)
    ensures
        res@ == path_uri(path@),
{
    let shown = text_lossy(&path.bytes);
    let chars = chars_of(shown.as_str());
    let mut res = String::new();
    res.append("file:///");
    let ghost turn = |c: char| if c == '\\' { '/' } else { c };
    assert(res@ =~= file_scheme() + chars@.take(0).map_values(turn));
    let mut i: usize = 0;
    while i < chars.len()
        invariant
            i <= chars.len(),
            turn == (|c: char| if c == '\\' { '/' } else { c }),
            res@ == file_scheme() + chars@.take(i as int).map_values(turn),
        decreases chars.len() - i,
    {
        let c = chars[i];
        res.push(if c == '\\' { '/' } else { c });
        proof {
            assert(res@ =~= file_scheme() + chars@.take(i + 1).map_values(turn));
        }
        i = i + 1;
    }
    proof {
        assert(chars@.take(chars@.len() as int) =~= chars@);
        assert(res@ =~= path_uri(path@));
    }
    res
}

proof fn lemma_nothing_to_decode(s: Seq<u8>)
    requires
        forall|i: int| 0 <= i < s.len() ==> !starts_with_escape(#[trigger] s.skip(i)),
    ensures
        percent_decoded(s) == s,
    decreases s.len(),
{
    if s.len() > 0 {
        let rest = s.skip(1);
        assert forall|i: int| 0 <= i < rest.len() implies !starts_with_escape(
            #[trigger] rest.skip(i),
        ) by {
            assert(rest.skip(i) =~= s.skip(i + 1));
        }
        lemma_nothing_to_decode(rest);
        assert(s.skip(0) =~= s);
        assert(seq![s[0]] + rest =~= s);
    } else {
        assert(percent_decoded(s) =~= s);
    }
}

proof fn lemma_backslash_is_encoded(t: Seq<char>, i: int)
    requires
        0 <= i < t.len(),
        t[i] == '\\',
    ensures
        encode_utf8(t).contains(0x5c),
    decreases t.len(),
{
    let first = encode_scalar(t[0] as u32);
    let rest = encode_utf8(t.drop_first());
    assert(encode_utf8(t) == first + rest);
    if i == 0 {
        assert(leading_byte_width_1(0x5c) == 0x5c) by (bit_vector);
        assert(first[0] == 0x5c);
        assert((first + rest)[0] == 0x5c);
    } else {
        lemma_backslash_is_encoded(t.drop_first(), i - 1);
        let k = choose|k: int| 0 <= k < rest.len() && rest[k] == 0x5c;
        assert((first + rest)[first.len() + k] == 0x5c);
    }
}

proof fn lemma_second_slash_counts_for_nothing(p: Seq<u8>)
    requires
        p.len() > 0,
        p[0] == SLASH,
    ensures
        pieces(seq![SLASH] + p) == seq![Seq::<u8>::empty()] + pieces(p),
        pieces(p).len() > 1,
        pieces(p)[0].len() == 0,
        same_path(seq![SLASH] + p, p),
    decreases p.len(),
{
    let q = seq![SLASH] + p;
    assert(q.drop_last() =~= seq![SLASH] + p.drop_last());
    if p.len() == 1 {
        assert(p.drop_last() =~= Seq::empty());
        assert(q.drop_last() =~= seq![SLASH]);
        assert(q.drop_last().drop_last() =~= Seq::empty());
        reveal_with_fuel(pieces, 3);
        reveal_with_fuel(named_pieces, 4);
        assert(pieces(p) =~= seq![Seq::<u8>::empty(), Seq::<u8>::empty()]);
        assert(pieces(q) =~= seq![Seq::<u8>::empty()] + pieces(p));
    } else {
        lemma_second_slash_counts_for_nothing(p.drop_last());
        assert(pieces(q) =~= seq![Seq::<u8>::empty()] + pieces(p));
    }
    lemma_leading_empty_piece(pieces(p));
}

proof fn lemma_leading_empty_piece(r: Seq<Seq<u8>>)
    requires
        r.len() > 0,
        r[0].len() == 0,
    ensures
        named_pieces(seq![Seq::<u8>::empty()] + r) == named_pieces(r),
    decreases r.len(),
{
    let longer = seq![Seq::<u8>::empty()] + r;
    assert(longer.last() == r.last());
    assert(longer.drop_last() =~= seq![Seq::<u8>::empty()] + r.drop_last());
    if r.len() == 1 {
        reveal_with_fuel(named_pieces, 2);
        assert(r[0] =~= Seq::empty());
        assert(named_pieces(longer) =~= r);
    } else {
        lemma_leading_empty_piece(r.drop_last());
    }
}

/// The URI written for an absolute path leads back to that path, if the path is well-formed UTF-8
/// and holds neither a backslash nor a percent sign in front of two hexadecimal digits.
pub proof fn uri_leads_back_to_path(p: Seq<u8>)
    requires
        p.len() > 0,
        p[0] == SLASH,
        valid_utf8(p),
        !p.contains(0x5c),
        forall|i: int| 0 <= i < p.len() ==> !starts_with_escape(#[trigger] p.skip(i)),
    ensures
        uri_path(path_uri(p)) is Some,
        same_path(uri_path(path_uri(p)).unwrap(), p),
{
    let t = decode_utf8(p);
    decode_utf8_encode_utf8(p);
    let turn = |c: char| if c == '\\' { '/' } else { c };
    assert forall|i: int| 0 <= i < t.len() implies t[i] != '\\' by {
        if t[i] == '\\' {
            lemma_backslash_is_encoded(t, i);
        }
    }
    assert(t.map_values(turn) =~= t);
    let uri = path_uri(p);
    reveal_strlit("file:///");
    assert(uri.subrange(0, 8) =~= file_scheme());
    assert(uri.skip(8) =~= t);
    lemma_nothing_to_decode(p);
    lemma_second_slash_counts_for_nothing(p);
}

/// The hexadecimal digit for `n`, which is below sixteen.
pub open spec fn hex_digit(n: u8) -> u8 {
    if n < 10 {
        (n + 0x30) as u8
    } else {
        (n + 0x37) as u8
    }
}

/// `s` percent-encoded: the bytes that `plain` admits stay, except for the percent sign, and every
/// other byte is written in hexadecimal behind a percent sign.
pub open spec fn percent_encoded(s: Seq<u8>, plain: spec_fn(u8) -> bool) -> Seq<u8>
    decreases s.len(),
{
    if s.len() == 0 {
        Seq::empty()
    } else if plain(s[0]) && s[0] != 0x25 {
        seq![s[0]] + percent_encoded(s.skip(1), plain)
    } else {
        seq![0x25u8, hex_digit((s[0] / 16) as u8), hex_digit((s[0] % 16) as u8)] + percent_encoded(
            s.skip(1),
            plain,
        )
    }
}

/// What is percent-encoded decodes to what it was, whichever bytes the encoding left plain.
pub proof fn percent_encoding_reads_back(s: Seq<u8>, plain: spec_fn(u8) -> bool)
    ensures
        percent_decoded(percent_encoded(s, plain)) == s,
    decreases s.len(),
{
    let e = percent_encoded(s, plain);
    if s.len() == 0 {
        assert(percent_decoded(e) =~= s);
    } else {
        let rest = percent_encoded(s.skip(1), plain);
        percent_encoding_reads_back(s.skip(1), plain);
        assert(seq![s[0]] + s.skip(1) =~= s);
        if plain(s[0]) && s[0] != 0x25 {
            assert(e[0] == s[0]);
            assert(e.skip(1) =~= rest);
        } else {
            let high = (s[0] / 16) as u8;
            let low = (s[0] % 16) as u8;
            assert(e[0] == 0x25 && e[1] == hex_digit(high) && e[2] == hex_digit(low));
            assert(hex_value(e[1]) == Some(high));
            assert(hex_value(e[2]) == Some(low));
            assert(e.skip(3) =~= rest);
            assert(high * 16 + low == s[0]);
        }
    }
}

/// A URI whose text behind the scheme is a percent-encoded path leads to that path.
pub proof fn encoded_uri_leads_to_its_path(
    uri: Seq<char>,
    body: Seq<u8>,
    plain: spec_fn(u8) -> bool,
)
    requires
        file_scheme().is_prefix_of(uri),
        encode_utf8(uri.skip(8)) == percent_encoded(body, plain),
        valid_utf8(body),
    ensures
        uri_path(uri) == Some(seq![SLASH] + body),
{
    percent_encoding_reads_back(body, plain);
}

// Writing a slash for each backslash of a text writes one for each backslash of its encoding.
proof fn lemma_turned_encoding(t: Seq<char>)
    ensures
        encode_utf8(t.map_values(|c: char| if c == '\\' { '/' } else { c })) == encode_utf8(
            t,
        ).map_values(|b: u8| if b == 0x5c { SLASH } else { b }),
    decreases t.len(),
{
    let turn = |c: char| if c == '\\' { '/' } else { c };
    let turn_byte = |b: u8| if b == 0x5c { SLASH } else { b };
    let turned = t.map_values(turn);
    if t.len() == 0 {
        assert(encode_utf8(turned) =~= encode_utf8(t).map_values(turn_byte));
    } else {
        let first = encode_scalar(t[0] as u32);
        let rest = encode_utf8(t.drop_first());
        lemma_turned_encoding(t.drop_first());
        assert(turned.drop_first() =~= t.drop_first().map_values(turn));
        lemma_turned_scalar(t[0]);
        assert(turned[0] == turn(t[0]));
        assert((first + rest).map_values(turn_byte) =~= first.map_values(turn_byte)
            + rest.map_values(turn_byte));
    }
}

proof fn lemma_turned_scalar(c: char)
    ensures
        encode_scalar((if c == '\\' { '/' } else { c }) as u32) == encode_scalar(
            c as u32,
        ).map_values(|b: u8| if b == 0x5c { SLASH } else { b }),
{
    let turn_byte = |b: u8| if b == 0x5c { SLASH } else { b };
    let n = c as u32;
    char_is_scalar(c);
    if c == '\\' {
        assert(leading_byte_width_1(0x5cu32) == 0x5cu8) by (bit_vector);
        assert(leading_byte_width_1(0x2fu32) == 0x2fu8) by (bit_vector);
        assert(encode_scalar('/' as u32) =~= encode_scalar(n).map_values(turn_byte));
    } else {
        assert(has_width_1_encoding(n) && n != 0x5cu32 ==> leading_byte_width_1(n) != 0x5cu8)
            by (bit_vector);
        assert(leading_byte_width_2(n) >= 0x80u8) by (bit_vector);
        assert(leading_byte_width_3(n) >= 0x80u8) by (bit_vector);
        assert(leading_byte_width_4(n) >= 0x80u8) by (bit_vector);
        assert(last_continuation_byte(n) >= 0x80u8) by (bit_vector);
        assert(second_last_continuation_byte(n) >= 0x80u8) by (bit_vector);
        assert(third_last_continuation_byte(n) >= 0x80u8) by (bit_vector);
        assert(encode_scalar(n) =~= encode_scalar(n).map_values(turn_byte));
    }
}

/// The Windows path that `uri` names.
pub open spec fn windows_uri_path(uri: Seq<char>) -> Option<Seq<u8>> {
    match uri_body(uri) {
        Some(body) => Some(windows_path(body)),
        None => None,
    }
}

/// The URI written for a Windows path leads back to that path, if the path is well-formed UTF-8,
/// is written with backslashes only, holds no percent sign in front of two hexadecimal digits, and
/// does not have a backslash in front of what could be a drive letter and its colon.
pub proof fn uri_leads_back_to_windows_path(p: Seq<u8>)
    requires
        valid_utf8(p),
        !p.contains(SLASH),
        forall|i: int| 0 <= i < p.len() ==> !starts_with_escape(#[trigger] p.skip(i)),
        !(p.len() >= 3 && p[0] == 0x5c && p[2] == 0x3a),
    ensures
        windows_uri_path(path_uri(p)) == Some(p),
{
    let t = decode_utf8(p);
    let turn = |c: char| if c == '\\' { '/' } else { c };
    let turn_byte = |b: u8| if b == 0x5c { SLASH } else { b };
    decode_utf8_encode_utf8(p);
    lemma_turned_encoding(t);
    let body = p.map_values(turn_byte);
    let uri = path_uri(p);
    reveal_strlit("file:///");
    assert(uri.subrange(0, 8) =~= file_scheme());
    assert(uri.skip(8) =~= t.map_values(turn));
    assert(encode_utf8(uri.skip(8)) == body);
    assert forall|i: int| 0 <= i < body.len() implies !starts_with_escape(
        #[trigger] body.skip(i),
    ) by {
        assert(!starts_with_escape(p.skip(i)));
        let there = p.skip(i);
        if there.len() >= 3 {
            assert(body.skip(i)[0] == turn_byte(there[0]));
            assert(body.skip(i)[1] == turn_byte(there[1]));
            assert(body.skip(i)[2] == turn_byte(there[2]));
        }
    }
    lemma_nothing_to_decode(body);
    encode_utf8_valid_utf8(t.map_values(turn));
    assert(windows_path(body) =~= p) by {
        assert forall|i: int| 0 <= i < p.len() implies p[i] != SLASH by {
            if p[i] == SLASH {
                assert(p.contains(p[i]));
            }
        }
        if body.len() >= 3 {
            assert(body[0] == turn_byte(p[0]));
            assert(body[2] == turn_byte(p[2]));
        }
    }
}

/// `b` writes the hexadecimal digit `n`, in either case.
pub open spec fn writes_hex(b: u8, n: u8) -> bool {
    ||| n < 10 && b == 0x30 + n
    ||| 10 <= n < 16 && b == 0x41 + (n - 10)
    ||| 10 <= n < 16 && b == 0x61 + (n - 10)
}

/// Percent-decoding goes from front to back: a percent sign and two hexadecimal digits, in either
/// case, give the byte that they write, and every other byte stays as it is; so does a percent sign
/// that two such digits do not follow.
pub proof fn percent_decoding_goes_byte_by_byte(
    rest: Seq<u8>,
    b: u8,
    high: u8,
    low: u8,
    m: u8,
    n: u8,
)
    requires
        writes_hex(high, m),
        writes_hex(low, n),
    ensures
        percent_decoded(seq![0x25u8, high, low] + rest) == seq![(m * 16 + n) as u8]
            + percent_decoded(rest),
        b != 0x25 ==> percent_decoded(seq![b] + rest) == seq![b] + percent_decoded(rest),
        rest.len() < 2 || !(exists|k: u8| #[trigger] writes_hex(rest[0], k)) || !(exists|k: u8|
            #[trigger] writes_hex(rest[1], k)) ==> percent_decoded(seq![0x25u8] + rest)
            == seq![0x25u8] + percent_decoded(rest),
        percent_decoded(Seq::empty()).len() == 0,
{
    let whole = seq![0x25u8, high, low] + rest;
    assert(whole.skip(3) =~= rest);
    let plain = seq![b] + rest;
    assert(plain.skip(1) =~= rest);
    let cut = seq![0x25u8] + rest;
    assert(cut.skip(1) =~= rest);
    if starts_with_escape(cut) {
        assert(cut[1] == rest[0] && cut[2] == rest[1]);
        assert(writes_hex(rest[0], hex_value(rest[0]).unwrap()));
        assert(writes_hex(rest[1], hex_value(rest[1]).unwrap()));
    }
}

/// A URI names a path exactly where it begins with `file:///` and the rest, percent-decoded, is
/// well-formed UTF-8; the path is what it decodes to, behind a slash.
pub proof fn uri_names_its_path(uri: &str, res: Option<FilePath>)
    requires
        call_ensures(uri_to_path, (uri,), res),
    ensures
        ({
            let named = uri@.len() >= 8 && uri@.take(8) == seq![
                'f',
                'i',
                'l',
                'e',
                ':',
                '/',
                '/',
                '/',
            ];
            let decoded = percent_decoded(encode_utf8(uri@.skip(8)));
            &&& res is Some <==> named && valid_utf8(decoded)
            &&& res matches Some(path) ==> path@ == seq![0x2fu8] + decoded
        }),
{
    reveal_strlit("file:///");
    let s = file_scheme();
    assert(s =~= seq!['f', 'i', 'l', 'e', ':', '/', '/', '/']);
    if uri@.len() >= 8 {
        assert(uri@.take(8) =~= uri@.subrange(0, 8));
    }
}

/// On Windows a URI names a path exactly where it does elsewhere. The path has a backslash for each
/// slash of what the URI decodes to, and nothing else is changed, but that a slash in front of a
/// drive is left out.
pub proof fn uri_names_its_windows_path(
    uri: &str,
    res: Option<FilePath>,
    unix: Option<FilePath>,
    i: int,
)
    requires
        call_ensures(uri_to_windows_path, (uri,), res),
        call_ensures(uri_to_path, (uri,), unix),
    ensures
        res is Some <==> unix is Some,
        res is Some ==> {
            let body = unix.unwrap()@.skip(1);
            let path = res.unwrap()@;
            let left_out: int = if body.len() >= 3 && body[0] == 0x2f && body[2] == 0x3a {
                1
            } else {
                0
            };
            &&& path.len() == body.len() - left_out
            &&& 0 <= i < path.len() ==> path[i] == (if body[i + left_out] == 0x2f {
                0x5cu8
            } else {
                body[i + left_out]
            })
        },
{
    if let Some(path) = unix {
        let body = uri_body(uri@).unwrap();
        assert(path@.skip(1) =~= body);
    }
}

/// The URI of a path begins with `file:///` and holds the path behind it, with a slash for each
/// backslash, if the path is well-formed UTF-8.
pub proof fn uri_of_a_path_holds_it(path: &FilePath, uri: String, i: int)
    requires
        call_ensures(path_to_uri, (path,), uri),
        valid_utf8(path@),
    ensures
        uri@.len() >= 8,
        uri@.take(8) == seq!['f', 'i', 'l', 'e', ':', '/', '/', '/'],
        encode_utf8(uri@.skip(8)).len() == path@.len(),
        0 <= i < path@.len() ==> encode_utf8(uri@.skip(8))[i] == (if path@[i] == 0x5c {
            0x2fu8
        } else {
            path@[i]
        }),
{
    reveal_strlit("file:///");
    let t = decode_utf8(path@);
    decode_utf8_encode_utf8(path@);
    lemma_turned_encoding(t);
    let turned = t.map_values(|c: char| if c == '\\' { '/' } else { c });
    assert(uri@.skip(8) =~= turned);
    assert(uri@.take(8) =~= seq!['f', 'i', 'l', 'e', ':', '/', '/', '/']);
}

/// The URI written for an absolute path leads back to that path.
pub proof fn written_uri_leads_back(
    path: &FilePath,
    written: String,
    uri: &str,
    res: Option<FilePath>,
)
    requires
        call_ensures(path_to_uri, (path,), written),
        uri@ == written@,
        call_ensures(uri_to_path, (uri,), res),
        path@.len() > 0,
        path@[0] == 0x2f,
        valid_utf8(path@),
        !path@.contains(0x5c),
        forall|i: int| 0 <= i < path@.len() ==> !starts_with_escape(#[trigger] path@.skip(i)),
    ensures
        res is Some,
        same_path(res.unwrap()@, path@),
{
    uri_leads_back_to_path(path@);
}

/// The URI written for a Windows path leads back to that path.
pub proof fn written_uri_leads_back_on_windows(
    path: &FilePath,
    written: String,
    uri: &str,
    res: Option<FilePath>,
)
    requires
        call_ensures(path_to_uri, (path,), written),
        uri@ == written@,
        call_ensures(uri_to_windows_path, (uri,), res),
        valid_utf8(path@),
        !path@.contains(0x2f),
        forall|i: int| 0 <= i < path@.len() ==> !starts_with_escape(#[trigger] path@.skip(i)),
        !(path@.len() >= 3 && path@[0] == 0x5c && path@[2] == 0x3a),
    ensures
        res is Some,
        res.unwrap()@ == path@,
{
    uri_leads_back_to_windows_path(path@);
}

} // verus!
