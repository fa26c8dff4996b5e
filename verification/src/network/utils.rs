//! Sharing a contact out of band: the contact link
//! `securechat://contact?key=<base64 of the public key>&name=<name>`, with
//! the name percent-encoded byte by byte.

use vstd::prelude::*;
use vstd::string::StrSliceExecFns;
use vstd::string::StringExecFns;
use vstd::utf8::decode_utf8;
use vstd::utf8::encode_utf8;
use vstd::utf8::is_ascii_chars;
use vstd::utf8::valid_utf8;
use crate::error::CoreError;
use crate::primitives::base64_decode;
use crate::primitives::base64_encode;
use crate::primitives::is_base64_char;

verus! {

/// The length of the link's head, `securechat://contact?key=`.
pub const PREFIX_LEN: usize = 25;

/// The length of the marker before the name, `&name=`.
pub const MARKER_LEN: usize = 6;

/// The head of a contact link.
pub open spec fn uri_prefix() -> Seq<char> {
    "securechat://contact?key="@
}

/// The marker between the key and the name.
pub open spec fn name_marker() -> Seq<char> {
    "&name="@
}

/// Whether a byte stands for itself in a link: a letter, a digit, or one
/// of `-`, `.`, `_`, `~`.
pub open spec fn is_unreserved(b: u8) -> bool {
    ||| 0x30 <= b <= 0x39
    ||| 0x41 <= b <= 0x5a
    ||| 0x61 <= b <= 0x7a
    ||| b == 0x2d
    ||| b == 0x2e
    ||| b == 0x5f
    ||| b == 0x7e
}

/// The hexadecimal digit of a value below sixteen, in upper case.
pub open spec fn hex_char(d: u8) -> char {
    if d < 10 {
        ((0x30 + d) as u8) as char
    } else {
        ((0x37 + d) as u8) as char
    }
}

/// The value of a hexadecimal digit, in either case.
pub open spec fn hex_value(c: char) -> Option<u8> {
    let v = c as u32;
    if 0x30 <= v <= 0x39 {
        Some((v - 0x30) as u8)
    } else if 0x41 <= v <= 0x46 {
        Some((v - 0x37) as u8)
    } else if 0x61 <= v <= 0x66 {
        Some((v - 0x57) as u8)
    } else {
        None
    }
}

/// How one byte is written in a link: as itself where it is unreserved,
/// else as `%` and two hexadecimal digits.
pub open spec fn encoded_byte(b: u8) -> Seq<char> {
    if is_unreserved(b) {
        seq![b as char]
    } else {
        seq!['%', hex_char(b / 16), hex_char(b % 16)]
    }
}

/// How a byte string is written in a link.
pub open spec fn percent_encoded(bytes: Seq<u8>) -> Seq<char>
    decreases bytes.len(),
{
    if bytes.len() == 0 {
        Seq::empty()
    } else {
        encoded_byte(bytes[0]) + percent_encoded(bytes.drop_first())
    }
}

/// The byte string that a percent-encoded text stands for: `%` with two
/// hexadecimal digits is the byte of that value, any other ASCII character
/// is itself. `None` where a `%` lacks its digits or a character is not
/// ASCII.
pub open spec fn percent_decoded(chars: Seq<char>) -> Option<Seq<u8>>
    decreases chars.len(),
{
    if chars.len() == 0 {
        Some(Seq::empty())
    } else if chars[0] == '%' {
        if chars.len() < 3 {
            None
        } else {
            match (hex_value(chars[1]), hex_value(chars[2]), percent_decoded(chars.skip(3))) {
                (Some(h), Some(l), Some(rest)) => Some(seq![(h * 16 + l) as u8] + rest),
                _ => None,
            }
        }
    } else if chars[0] as u32 >= 0x80 {
        None
    } else {
        match percent_decoded(chars.skip(1)) {
            Some(rest) => Some(seq![chars[0] as u8] + rest),
            None => None,
        }
    }
}

/// The place of the first `&` at or after `from`, or the length where
/// there is none.
pub open spec fn key_end(qr: Seq<char>, from: int) -> int
    decreases qr.len() - from,
{
    if from >= qr.len() {
        qr.len() as int
    } else if qr[from] == '&' {
        from
    } else {
        key_end(qr, from + 1)
    }
}

/// The contact link of a public key and a name.
pub open spec fn contact_uri(public_key: Seq<u8>, name: Seq<char>) -> Seq<char> {
    uri_prefix() + base64_encode(public_key) + name_marker() + percent_encoded(encode_utf8(name))
}

/// The name and the key that a contact link holds. A text that is not
/// ASCII, starts otherwise than a contact link, lacks the name marker,
/// holds a key that is not the base64 of 32 bytes, or a name that is not
/// percent-encoded UTF-8, is refused with `CryptoFailure`.
pub open spec fn contact_of(qr: Seq<char>) -> Result<(Seq<char>, Seq<u8>), CoreError> {
    let e = key_end(qr, PREFIX_LEN as int);
    if !is_ascii_chars(qr) || qr.len() < PREFIX_LEN || qr.subrange(0, PREFIX_LEN as int)
        != uri_prefix() || e + MARKER_LEN > qr.len() || qr.subrange(e, e + MARKER_LEN)
        != name_marker() {
        Err(CoreError::CryptoFailure)
    } else {
        match (
            base64_decode(qr.subrange(PREFIX_LEN as int, e)),
            percent_decoded(qr.subrange(e + MARKER_LEN, qr.len() as int)),
        ) {
            (Some(key), Some(name)) => if key.len() == 32 && valid_utf8(name) {
                Ok((decode_utf8(name), key))
            } else {
                Err(CoreError::CryptoFailure)
            },
            _ => Err(CoreError::CryptoFailure),
        }
    }
}

/// `String::push` appends one character.
pub assume_specification[ String::push ](s: &mut String, c: char)
    ensures
        final(s)@ == old(s)@.push(c),
;

/// Calls `String::from_utf8`. The contract claims that the call succeeds
/// exactly on valid UTF-8, and that the string holds the characters that
/// the bytes encode.
#[verifier::external_body]
fn string_from_utf8(bytes: Vec<u8>) -> (r: Option<String>)
    ensures
        r is Some <==> valid_utf8(bytes@),
        r matches Some(s) ==> s@ == decode_utf8(bytes@),
{
    String::from_utf8(bytes).ok()
}

/// Whether a byte stands for itself in a link.
fn unreserved(b: u8) -> (r: bool)
    ensures
        r == is_unreserved(b),
{
    (0x30 <= b && b <= 0x39) || (0x41 <= b && b <= 0x5a) || (0x61 <= b && b <= 0x7a) || b == 0x2d
        || b == 0x2e || b == 0x5f || b == 0x7e
}

/// The hexadecimal digit of a value below sixteen.
fn hex_digit(d: u8) -> (c: char)
    requires
        d < 16,
    ensures
        c == hex_char(d),
{
    if d < 10 {
        (0x30 + d) as char
    } else {
        (0x37 + d) as char
    }
}

/// The value of a hexadecimal digit given as an ASCII byte.
fn hex_digit_value(b: u8) -> (r: Option<u8>)
    requires
        b < 0x80,
    ensures
        r == hex_value(b as char),
        r matches Some(v) ==> v < 16,
{
    if 0x30 <= b && b <= 0x39 {
        Some(b - 0x30)
    } else if 0x41 <= b && b <= 0x46 {
        Some(b - 0x37)
    } else if 0x61 <= b && b <= 0x66 {
        Some(b - 0x57)
    } else {
        None
    }
}

/// Encoding one more byte appends what it is written as.
pub proof fn lemma_encoded_push(bytes: Seq<u8>, b: u8)
    ensures
        percent_encoded(bytes.push(b)) == percent_encoded(bytes) + encoded_byte(b),
    decreases bytes.len(),
{
    if bytes.len() == 0 {
        assert(bytes.push(b).drop_first() =~= Seq::<u8>::empty());
        assert(percent_encoded(Seq::<u8>::empty()) =~= Seq::<char>::empty());
        assert(bytes.push(b)[0] == b);
        assert(percent_encoded(bytes.push(b)) =~= encoded_byte(b) + Seq::<char>::empty());
        assert(percent_encoded(bytes.push(b)) =~= encoded_byte(b));
        assert(percent_encoded(bytes) + encoded_byte(b) =~= encoded_byte(b));
    } else {
        assert(bytes.push(b).drop_first() =~= bytes.drop_first().push(b));
        lemma_encoded_push(bytes.drop_first(), b);
        assert(percent_encoded(bytes.push(b)) =~= percent_encoded(bytes) + encoded_byte(b));
    }
}

/// What a byte is written as is ASCII, holds no `&`, and stands for the
/// byte again.
pub proof fn lemma_encoded_byte(b: u8, rest: Seq<char>)
    ensures
        is_ascii_chars(encoded_byte(b)),
        forall|i: int| 0 <= i < encoded_byte(b).len() ==> encoded_byte(b)[i] != '&',
        percent_decoded(encoded_byte(b) + rest) == match percent_decoded(rest) {
            Some(tail) => Some(seq![b] + tail),
            None => None,
        },
{
    let text = encoded_byte(b) + rest;
    if is_unreserved(b) {
        assert(text[0] == b as char);
        assert(text.skip(1) =~= rest);
    } else {
        let h = b / 16;
        let l = b % 16;
        assert(text[0] == '%');
        assert(text[1] == hex_char(h));
        assert(text[2] == hex_char(l));
        assert(text.skip(3) =~= rest);
        assert(hex_value(hex_char(h)) == Some(h));
        assert(hex_value(hex_char(l)) == Some(l));
        assert((h * 16 + l) as u8 == b);
    }
}

/// A percent-encoded byte string is ASCII, holds no `&`, and decodes to
/// the byte string.
pub proof fn lemma_percent_round_trip(bytes: Seq<u8>)
    ensures
        is_ascii_chars(percent_encoded(bytes)),
        forall|i: int| 0 <= i < percent_encoded(bytes).len() ==> percent_encoded(bytes)[i] != '&',
        percent_decoded(percent_encoded(bytes)) == Some(bytes),
    decreases bytes.len(),
{
    if bytes.len() > 0 {
        let rest = percent_encoded(bytes.drop_first());
        lemma_percent_round_trip(bytes.drop_first());
        lemma_encoded_byte(bytes[0], rest);
        assert(seq![bytes[0]] + bytes.drop_first() =~= bytes);
        let head = encoded_byte(bytes[0]);
        assert forall|i: int| 0 <= i < (head + rest).len() implies '\0' <= #[trigger] (head
            + rest)[i] <= '\u{7f}' && (head + rest)[i] != '&' by {
            if i < head.len() {
                assert((head + rest)[i] == head[i]);
            } else {
                assert((head + rest)[i] == rest[i - head.len()]);
            }
        }
    }
}

/// Where no `&` stands between `from` and `e`, and one stands at `e`, the
/// key ends at `e`.
pub proof fn lemma_key_end(qr: Seq<char>, from: int, e: int)
    requires
        0 <= from <= e <= qr.len(),
        forall|i: int| from <= i < e ==> qr[i] != '&',
        e < qr.len() ==> qr[e] == '&',
    ensures
        key_end(qr, from) == e,
    decreases e - from,
{
    if from < e {
        lemma_key_end(qr, from + 1, e);
    }
}


/// A link put together from the head, a base64 text that decodes to a
/// 32-byte key, the marker and a percent-encoded name holds that name and
/// that key.
proof fn lemma_link_parses(public_key: Seq<u8>, name: Seq<char>, key_text: Seq<char>)
    requires
        public_key.len() == 32,
        forall|i: int| 0 <= i < key_text.len() ==> is_base64_char(#[trigger] key_text[i]),
        base64_decode(key_text) == Some(public_key),
    ensures
        contact_of(uri_prefix() + key_text + name_marker() + percent_encoded(encode_utf8(name)))
            == Ok::<(Seq<char>, Seq<u8>), CoreError>((name, public_key)),
{
    reveal_strlit("securechat://contact?key=");
    reveal_strlit("&name=");
    let bytes = encode_utf8(name);
    let tail = percent_encoded(bytes);
    let qr = uri_prefix() + key_text + name_marker() + tail;
    let e = PREFIX_LEN + key_text.len();
    lemma_percent_round_trip(bytes);
    vstd::utf8::encode_utf8_valid_utf8(name);
    vstd::utf8::encode_utf8_decode_utf8(name);
    assert(uri_prefix().len() == PREFIX_LEN);
    assert(name_marker().len() == MARKER_LEN);
    assert forall|i: int| 0 <= i < qr.len() implies '\0' <= #[trigger] qr[i] <= '\u{7f}' by {
        if i < PREFIX_LEN {
            assert(qr[i] == uri_prefix()[i]);
        } else if i < e {
            assert(qr[i] == key_text[i - PREFIX_LEN]);
        } else if i < e + MARKER_LEN {
            assert(qr[i] == name_marker()[i - e]);
        } else {
            assert(qr[i] == tail[i - e - MARKER_LEN]);
        }
    }
    assert forall|i: int| PREFIX_LEN <= i < e implies qr[i] != '&' by {
        assert(qr[i] == key_text[i - PREFIX_LEN]);
    }
    assert(qr[e as int] == name_marker()[0]);
    lemma_key_end(qr, PREFIX_LEN as int, e as int);
    assert(qr.subrange(0, PREFIX_LEN as int) =~= uri_prefix());
    assert(qr.subrange(e as int, e + MARKER_LEN) =~= name_marker());
    assert(qr.subrange(PREFIX_LEN as int, e as int) =~= key_text);
    assert(qr.subrange(e + MARKER_LEN, qr.len() as int) =~= tail);
}

/// The contact link of a public key and a display name, for a QR code.
/// Parsing the link gives the name and the key back.
pub fn generate_contact_qr(public_key: &[u8; 32], display_name: &str) -> (qr: String)
    ensures
        qr@ == contact_uri(public_key@, display_name@),
        contact_of(qr@) == Ok::<(Seq<char>, Seq<u8>), CoreError>((display_name@, public_key@)),
{
    let mut out = String::from_str("securechat://contact?key=");
    let key_text = crate::primitives::base64_encode_standard(public_key.as_slice());
    out.append(key_text.as_str());
    out.append("&name=");
    let bytes = display_name.as_bytes();
    let ghost head = out@;
    assert(bytes@.take(0) =~= Seq::<u8>::empty());
    assert(head + percent_encoded(Seq::<u8>::empty()) =~= head);
    let mut i: usize = 0;
    while i < bytes.len()
        invariant
            i <= bytes@.len(),
            out@ == head + percent_encoded(bytes@.take(i as int)),
        decreases bytes@.len() - i,
    {
        let b = bytes[i];
        let ghost before = out@;
        proof {
            lemma_encoded_push(bytes@.take(i as int), b);
            assert(bytes@.take(i + 1) =~= bytes@.take(i as int).push(b));
        }
        if unreserved(b) {
            out.push(b as char);
            assert(out@ =~= before + encoded_byte(b));
        } else {
            out.push('%');
            out.push(hex_digit(b / 16));
            out.push(hex_digit(b % 16));
            assert(out@ =~= before + encoded_byte(b));
        }
        assert(out@ =~= head + percent_encoded(bytes@.take(i + 1)));
        i += 1;
    }
    proof {
        assert(bytes@.take(i as int) =~= bytes@);
        lemma_link_parses(public_key@, display_name@, key_text@);
    }
    out
}

/// Whether an ASCII text is the given word.
fn is_text(text: &str, word: &str) -> (r: bool)
    ensures
        r == (text@ == word@),
{
    let a = String::from_str(text);
    let b = String::from_str(word);
    a == b
}

/// Decodes the percent-encoded tail of an ASCII text.
fn percent_decode(text: &str, from: usize, len: usize) -> (r: Option<Vec<u8>>)
    requires
        text.is_ascii(),
        from <= len == text@.len(),
    ensures
        match r {
            Some(bytes) => percent_decoded(text@.subrange(from as int, len as int)) == Some(
                bytes@,
            ),
            None => percent_decoded(text@.subrange(from as int, len as int)) is None,
        },
{
    let ghost all = text@.subrange(from as int, len as int);
    let mut out: Vec<u8> = Vec::new();
    let mut i: usize = from;
    assert(text@.subrange(i as int, len as int) =~= all);
    while i < len
        invariant
            text.is_ascii(),
            from <= i <= len == text@.len(),
            all == text@.subrange(from as int, len as int),
            percent_decoded(all) == match percent_decoded(text@.subrange(i as int, len as int)) {
                Some(rest) => Some(out@ + rest),
                None => None,
            },
        decreases len - i,
    {
        let ghost here = text@.subrange(i as int, len as int);
        let b = text.get_ascii(i);
        assert(here[0] == text@[i as int]);
        assert('\0' <= text@[i as int] <= '\u{7f}');
        if b == 0x25 {
            if len - i < 3 {
                return None;
            }
            assert(here[1] == text@[i + 1]);
            assert(here[2] == text@[i + 2]);
            assert('\0' <= text@[i + 1] <= '\u{7f}');
            assert('\0' <= text@[i + 2] <= '\u{7f}');
            let h = hex_digit_value(text.get_ascii(i + 1));
            let l = hex_digit_value(text.get_ascii(i + 2));
            match (h, l) {
                (Some(hv), Some(lv)) => {
                    let ghost before = out@;
                    out.push(hv * 16 + lv);
                    proof {
                        let next = text@.subrange(i + 3, len as int);
                        assert(here.skip(3) =~= next);
                        if let Some(rest) = percent_decoded(next) {
                            assert(before + (seq![(hv * 16 + lv) as u8] + rest) =~= out@ + rest);
                        }
                    }
                    i += 3;
                },
                _ => {
                    return None;
                },
            }
        } else {
            let ghost before = out@;
            out.push(b);
            proof {
                let next = text@.subrange(i + 1, len as int);
                assert(here.skip(1) =~= next);
                if let Some(rest) = percent_decoded(next) {
                    assert(before + (seq![b] + rest) =~= out@ + rest);
                }
            }
            i += 1;
        }
    }
    assert(text@.subrange(i as int, len as int) =~= Seq::<char>::empty());
    assert(out@ + Seq::<u8>::empty() =~= out@);
    Some(out)
}

/// Parses a contact link into the display name and the public key. An
/// unknown scheme, a missing name, malformed base64, a key that is not 32
/// bytes and a name that is not percent-encoded UTF-8 are refused with
/// `CryptoFailure`.
pub fn parse_contact_qr(qr: &str) -> (r: Result<(String, [u8; 32]), CoreError>)
    ensures
        match r {
            Ok(contact) => contact_of(qr@) == Ok::<(Seq<char>, Seq<u8>), CoreError>(
                (contact.0@, contact.1@),
            ),
            Err(e) => contact_of(qr@) == Err::<(Seq<char>, Seq<u8>), CoreError>(e),
        },
{
    if !qr.is_ascii() {
        return Err(CoreError::CryptoFailure);
    }
    let len = qr.unicode_len();
    if len < PREFIX_LEN {
        return Err(CoreError::CryptoFailure);
    }
    if !is_text(qr.substring_ascii(0, PREFIX_LEN), "securechat://contact?key=") {
        return Err(CoreError::CryptoFailure);
    }
    let mut e: usize = PREFIX_LEN;
    while e < len && qr.get_ascii(e) != 0x26
        invariant
            qr.is_ascii(),
            PREFIX_LEN <= e <= len == qr@.len(),
            key_end(qr@, PREFIX_LEN as int) == key_end(qr@, e as int),
        decreases len - e,
    {
        assert('\0' <= qr@[e as int] <= '\u{7f}');
        e += 1;
    }
    proof {
        if e < len {
            assert('\0' <= qr@[e as int] <= '\u{7f}');
        }
        assert(key_end(qr@, e as int) == e);
    }
    if len - e < MARKER_LEN {
        return Err(CoreError::CryptoFailure);
    }
    if !is_text(qr.substring_ascii(e, e + MARKER_LEN), "&name=") {
        return Err(CoreError::CryptoFailure);
    }
    let key_bytes = match crate::primitives::base64_decode_standard(
        qr.substring_ascii(PREFIX_LEN, e),
    ) {
        Some(bytes) => bytes,
        None => {
            return Err(CoreError::CryptoFailure);
        },
    };
    let name_bytes = match percent_decode(qr, e + MARKER_LEN, len) {
        Some(bytes) => bytes,
        None => {
            return Err(CoreError::CryptoFailure);
        },
    };
    if key_bytes.len() != 32 {
        return Err(CoreError::CryptoFailure);
    }
    let key = crate::primitives::to_key(&key_bytes);
    assert(key_bytes@.subrange(0, 32) =~= key_bytes@);
    match string_from_utf8(name_bytes) {
        Some(name) => Ok((name, key)),
        None => Err(CoreError::CryptoFailure),
    }
}

} // verus!
