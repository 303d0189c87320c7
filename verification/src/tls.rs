//! The TLS upgrade that the page and the proxy agree on.
//!
//! The page sends the text `{"cmd":"tls_upgrade"}`. The proxy upgrades its
//! connection and answers with the server's certificate in hexadecimal:
//! `{"cmd":"tls_ready","server_cert":"..."}`. The page needs the public key in it.

use vstd::prelude::*;
use vstd::utf8::encode_utf8;
use x509_cert::der::Decode;

use crate::text::{chars_of, find_from, lemma_place_is, occurs, occurs_at, place_of, string_of, same_text};

verus! {

/// What the page sends to ask for TLS.
pub const TLS_UPGRADE_COMMAND: &'static str = "{\"cmd\":\"tls_upgrade\"}";

/// The field of a message that holds its command.
pub const COMMAND_KEY: &'static str = "cmd";

// ---------------------------------------------------------------------------
// Hexadecimal
// ---------------------------------------------------------------------------
/// The digit of a number below 16, in lower case.
pub open spec fn digit(n: int) -> char {
    if n < 10 {
        ('0' as int + n) as char
    } else {
        ('a' as int + (n - 10)) as char
    }
}

/// The two digits of each byte.
pub open spec fn hex_text(bytes: Seq<u8>) -> Seq<char>
    decreases bytes.len(),
{
    if bytes.len() == 0 {
        Seq::empty()
    } else {
        hex_text(bytes.drop_last()) + seq![digit(bytes.last() as int / 16), digit(bytes.last() as int % 16)]
    }
}

/// The value of a digit, in either case.
pub open spec fn digit_value(c: char) -> Option<int> {
    if '0' <= c <= '9' {
        Some(c as int - '0' as int)
    } else if 'a' <= c <= 'f' {
        Some(c as int - 'a' as int + 10)
    } else if 'A' <= c <= 'F' {
        Some(c as int - 'A' as int + 10)
    } else {
        None
    }
}

/// The byte that two characters stand for: two digits, or a plus sign and a digit.
pub open spec fn pair_value(first: char, second: char) -> Option<u8> {
    match (digit_value(first), digit_value(second)) {
        (Some(high), Some(low)) => Some((16 * high + low) as u8),
        (None, Some(low)) => if first == '+' {
            Some(low as u8)
        } else {
            None
        },
        _ => None,
    }
}

/// Why a text is no hexadecimal.
#[derive(Debug, Clone, Copy, PartialEq, Eq)]
pub enum HexError {
    /// It takes an odd number of bytes.
    OddLength,
    /// Two of its bytes are no pair of digits.
    InvalidDigit,
}

/// How many bytes a character takes in UTF-8.
pub open spec fn width(c: char) -> int {
    if c as int <= 0x7F {
        1
    } else if c as int <= 0x7FF {
        2
    } else if c as int <= 0xFFFF {
        3
    } else {
        4
    }
}

/// The bytes of pairs of characters; `None` where a pair is none.
pub open spec fn pairs(text: Seq<char>) -> Option<Seq<u8>>
    decreases text.len(),
{
    if text.len() == 0 {
        Some(Seq::empty())
    } else if text.len() == 1 || pair_value(text[0], text[1]) is None {
        None
    } else {
        match pairs(text.skip(2)) {
            Some(rest) => Some(seq![pair_value(text[0], text[1])->0] + rest),
            None => None,
        }
    }
}

/// What a text decodes to.
pub open spec fn hex_value(text: Seq<char>) -> Result<Seq<u8>, HexError> {
    if encode_utf8(text).len() % 2 != 0 {
        Err(HexError::OddLength)
    } else {
        match pairs(text) {
            Some(bytes) => Ok(bytes),
            None => Err(HexError::InvalidDigit),
        }
    }
}

/// Whether a text can be cut into pairs of bytes up to the first pair that is not
/// two digits: no cut falls inside a character.
pub open spec fn cuts_cleanly(text: Seq<char>) -> bool
    decreases text.len(),
{
    if text.len() == 0 {
        true
    } else if width(text[0]) == 2 {
        true
    } else {
        &&& width(text[0]) == 1
        &&& text.len() >= 2
        &&& width(text[1]) == 1
        &&& pair_value(text[0], text[1]) is Some ==> cuts_cleanly(text.skip(2))
    }
}

fn digit_of(n: u8) -> (c: char)
    requires
        n < 16,
    ensures
        c == digit(n as int),
{
    let code: u32 = if n < 10 {
        0x30 + n as u32
    } else {
        0x61 + (n as u32 - 10)
    };
    match char::from_u32(code) {
        Some(c) => c,
        None => '0',
    }
}

fn value_of(c: char) -> (value: Option<u8>)
    ensures
        match value {
            Some(v) => v < 16 && digit_value(c) == Some(v as int),
            None => digit_value(c) is None,
        },
{
    let code: u32 = c as u32;
    if 0x30 <= code && code <= 0x39 {
        Some((code - 0x30) as u8)
    } else if 0x61 <= code && code <= 0x66 {
        Some((code - 0x61 + 10) as u8)
    } else if 0x41 <= code && code <= 0x46 {
        Some((code - 0x41 + 10) as u8)
    } else {
        None
    }
}

fn value_of_pair(first: char, second: char) -> (value: Option<u8>)
    ensures
        value == pair_value(first, second),
{
    match (value_of(first), value_of(second)) {
        (Some(high), Some(low)) => Some(16 * high + low),
        (None, Some(low)) => if first == '+' {
            Some(low)
        } else {
            None
        },
        _ => None,
    }
}

/// Writes bytes in lower-case hexadecimal.
pub fn hex_encode(bytes: &[u8]) -> (text: String)
    ensures
        text@ == hex_text(bytes@),
{
    let mut text = String::new();
    let mut i: usize = 0;
    assert(bytes@.take(0) =~= Seq::<u8>::empty());
    while i < bytes.len()
        invariant
            i <= bytes@.len(),
            text@ == hex_text(bytes@.take(i as int)),
        decreases bytes@.len() - i,
    {
        let ghost before = text@;
        let b: u8 = bytes[i];
        text.push(digit_of(b / 16));
        text.push(digit_of(b % 16));
        proof {
            assert(bytes@.take(i + 1).drop_last() =~= bytes@.take(i as int));
            assert(text@ =~= before + seq![digit(b as int / 16), digit(b as int % 16)]);
        }
        i = i + 1;
    }
    assert(bytes@.take(i as int) =~= bytes@);
    text
}

/// Reads bytes in hexadecimal, two characters for each.
pub fn hex_decode(hex: &str) -> (bytes: Result<Vec<u8>, HexError>)
    requires
        encode_utf8(hex@).len() % 2 == 0 ==> cuts_cleanly(hex@),
    ensures
        match bytes {
            Ok(b) => hex_value(hex@) == Ok::<Seq<u8>, HexError>(b@),
            Err(e) => hex_value(hex@) == Err::<Seq<u8>, HexError>(e),
        },
{
    if hex.as_bytes().len() % 2 != 0 {
        return Err(HexError::OddLength);
    }
    let chars = chars_of(hex);
    let mut bytes: Vec<u8> = Vec::new();
    let mut i: usize = 0;
    assert(chars@.skip(0) =~= chars@);
    assert(pairs(chars@) is Some ==> Seq::<u8>::empty() + pairs(chars@)->0 =~= pairs(chars@)->0);
    while i < chars.len()
        invariant
            i <= chars@.len(),
            chars@ == hex@,
            cuts_cleanly(chars@.skip(i as int)),
            pairs(chars@) is Some <==> pairs(chars@.skip(i as int)) is Some,
            pairs(chars@) is Some ==> pairs(chars@)->0 == bytes@ + pairs(chars@.skip(i as int))->0,
            encode_utf8(hex@).len() % 2 == 0,
        decreases chars@.len() - i,
    {
        let ghost rest = chars@.skip(i as int);
        proof {
            assert(rest[0] == chars@[i as int]);
            if rest.len() >= 2 {
                assert(rest[1] == chars@[i + 1]);
                assert(rest.skip(2) =~= chars@.skip(i + 2));
            }
        }
        if chars.len() - i < 2 {
            return Err(HexError::InvalidDigit);
        }
        match value_of_pair(chars[i], chars[i + 1]) {
            Some(value) => {
                let ghost before = bytes@;
                bytes.push(value);
                proof {
                    lemma_pair_is_narrow(rest[0], rest[1]);
                    if pairs(chars@) is Some {
                        assert(before + (seq![value] + pairs(rest.skip(2))->0) =~= bytes@ + pairs(rest.skip(2))->0);
                    }
                }
            }
            None => return Err(HexError::InvalidDigit),
        }
        i = i + 2;
    }
    assert(chars@.skip(i as int) =~= Seq::<char>::empty());
    assert(bytes@ + Seq::<u8>::empty() =~= bytes@);
    Ok(bytes)
}

/// The characters of a pair of digits take one byte each.
proof fn lemma_pair_is_narrow(first: char, second: char)
    requires
        pair_value(first, second) is Some,
    ensures
        width(first) == 1,
        width(second) == 1,
{
}

fn code_of(c: char) -> (code: u32)
    ensures
        code == c as int,
{
    c as u32
}

/// Whether [`hex_decode`] can be asked: no cut falls inside a character.
pub fn hex_decodable(hex: &str) -> (clean: bool)
    ensures
        clean == (encode_utf8(hex@).len() % 2 == 0 ==> cuts_cleanly(hex@)),
{
    if hex.as_bytes().len() % 2 != 0 {
        return true;
    }
    let chars = chars_of(hex);
    let mut i: usize = 0;
    assert(chars@.skip(0) =~= chars@);
    while i < chars.len()
        invariant
            i <= chars@.len(),
            chars@ == hex@,
            encode_utf8(hex@).len() % 2 == 0,
            cuts_cleanly(chars@) == cuts_cleanly(chars@.skip(i as int)),
        decreases chars@.len() - i,
    {
        let ghost rest = chars@.skip(i as int);
        proof {
            assert(rest[0] == chars@[i as int]);
            if rest.len() >= 2 {
                assert(rest[1] == chars@[i + 1]);
                assert(rest.skip(2) =~= chars@.skip(i + 2));
            }
        }
        let first: u32 = code_of(chars[i]);
        if first > 0x7F {
            return first <= 0x7FF;
        }
        if chars.len() - i < 2 || code_of(chars[i + 1]) > 0x7F {
            return false;
        }
        if value_of_pair(chars[i], chars[i + 1]).is_none() {
            return true;
        }
        i = i + 2;
    }
    assert(chars@.skip(i as int) =~= Seq::<char>::empty());
    true
}

// ---------------------------------------------------------------------------
// The messages
// ---------------------------------------------------------------------------
/// How a character is written inside a JSON string.
pub open spec fn json_escaped(c: char) -> Seq<char> {
    if c == '"' {
        seq!['\\', '"']
    } else if c == '\\' {
        seq!['\\', '\\']
    } else if c as int == 0x08 {
        seq!['\\', 'b']
    } else if c as int == 0x09 {
        seq!['\\', 't']
    } else if c as int == 0x0A {
        seq!['\\', 'n']
    } else if c as int == 0x0C {
        seq!['\\', 'f']
    } else if c as int == 0x0D {
        seq!['\\', 'r']
    } else if (c as int) < 0x20 {
        seq!['\\', 'u', '0', '0', digit(c as int / 16), digit(c as int % 16)]
    } else {
        seq![c]
    }
}

/// The characters of a text inside a JSON string.
pub open spec fn json_inside(text: Seq<char>) -> Seq<char>
    decreases text.len(),
{
    if text.len() == 0 {
        Seq::empty()
    } else {
        json_inside(text.drop_last()) + json_escaped(text.last())
    }
}

/// A message to the page: a command and one more field.
pub open spec fn json_message(command: Seq<char>, key: Seq<char>, value: Seq<char>) -> Seq<char> {
    "{\"cmd\":\""@ + json_inside(command) + "\",\""@ + json_inside(key) + "\":\""@ + json_inside(value) + "\"}"@
}

/// The compact text that `serde_json` gives an object of two string fields, the command
/// and another one that sorts behind it. Claimed: it is that of [`json_message`].
#[verifier::external_body]
fn message(command_key: &str, command: &str, key: &str, value: &str) -> (text: String)
    requires
        command_key@ == COMMAND_KEY@,
        key@ == "error"@ || key@ == "server_cert"@,
    ensures
        text@ == json_message(command@, key@, value@),
{
    let mut fields = serde_json::Map::new();
    fields.insert(command_key.to_owned(), serde_json::Value::String(command.to_owned()));
    fields.insert(key.to_owned(), serde_json::Value::String(value.to_owned()));
    serde_json::Value::Object(fields).to_string()
}

/// The text of a field that `serde_json` reads from a text: `None` where the text is no
/// JSON, holds no such field, or the field is no string.
pub uninterp spec fn json_field(text: Seq<char>, key: Seq<char>) -> Option<Seq<char>>;

/// The command that a text holds, if any.
pub open spec fn json_command(text: Seq<char>) -> Option<Seq<char>> {
    json_field(text, COMMAND_KEY@)
}

/// `serde_json::from_str`, `Value::get` and `Value::as_str`. Claimed: the answer depends
/// on the text and the key alone and goes by the name [`json_field`]; for
/// [`TLS_UPGRADE_COMMAND`] and [`COMMAND_KEY`] it is `tls_upgrade`.
#[verifier::external_body]
fn field_of(text: &str, key: &str) -> (field: Option<String>)
    ensures
        match field {
            Some(f) => json_field(text@, key@) == Some(f@),
            None => json_field(text@, key@) is None,
        },
        text@ == TLS_UPGRADE_COMMAND@ && key@ == COMMAND_KEY@ ==> field is Some && field->0@ == "tls_upgrade"@,
{
    let json = serde_json::from_str::<serde_json::Value>(text).ok()?;
    json.get(key)?.as_str().map(str::to_owned)
}

/// Whether a command asks for TLS.
pub fn is_tls_upgrade_command(command: Option<String>) -> (asked: bool)
    ensures
        asked == (command is Some && command->0@ == "tls_upgrade"@),
{
    match command {
        Some(c) => same_text(c.as_str(), "tls_upgrade"),
        None => false,
    }
}

/// Whether a text from the page asks for TLS.
pub fn is_tls_upgrade(text: &str) -> (asked: bool)
    ensures
        asked == (json_command(text@) == Some("tls_upgrade"@)),
        text@ == TLS_UPGRADE_COMMAND@ ==> asked,
{
    is_tls_upgrade_command(field_of(text, COMMAND_KEY))
}

/// The proxy's answer when TLS stands: the certificate in hexadecimal.
pub fn tls_ready_message(cert_der: &[u8]) -> (text: String)
    ensures
        text@ == json_message("tls_ready"@, "server_cert"@, hex_text(cert_der@)),
{
    let hex = hex_encode(cert_der);
    message(COMMAND_KEY, "tls_ready", "server_cert", hex.as_str())
}

/// The proxy's answer when TLS fails.
pub fn tls_error_message(error: &str) -> (text: String)
    ensures
        text@ == json_message("tls_error"@, "error"@, error@),
{
    message(COMMAND_KEY, "tls_error", "error", error)
}

/// What stands between the certificate marker and the next quotation mark, in a
/// text that speaks of `tls_ready`.
pub open spec fn ready_cert(text: Seq<char>) -> Option<Seq<char>> {
    let marker = "\"server_cert\":\""@;
    if !occurs(text, "tls_ready"@) {
        None
    } else {
        match place_of(text, marker, 0) {
            None => None,
            Some(at) => {
                let start = at + marker.len() as int;
                match place_of(text, "\""@, start) {
                    None => None,
                    Some(end) => Some(text.subrange(start, end)),
                }
            },
        }
    }
}

/// Takes the certificate out of the proxy's answer.
pub fn parse_tls_ready(json_str: &str) -> (cert: Option<String>)
    ensures
        match cert {
            Some(c) => ready_cert(json_str@) == Some(c@),
            None => ready_cert(json_str@) is None,
        },
{
    let chars = chars_of(json_str);
    proof {
        crate::text::lemma_place_of(chars@, "tls_ready"@, 0);
        crate::text::lemma_place_of(chars@, "\"server_cert\":\""@, 0);
    }
    let ready = chars_of("tls_ready");
    if find_from(&chars, &ready, 0).is_none() {
        return None;
    }
    let marker = chars_of("\"server_cert\":\"");
    let at: usize = match find_from(&chars, &marker, 0) {
        Some(at) => at,
        None => return None,
    };
    assert(at + marker@.len() <= chars.len());
    let start: usize = at + marker.len();
    proof {
        crate::text::lemma_place_of(chars@, "\""@, start as int);
    }
    let quote = chars_of("\"");
    let end: usize = match find_from(&chars, &quote, start) {
        Some(end) => end,
        None => return None,
    };
    Some(string_of(&chars, start, end))
}

// ---------------------------------------------------------------------------
// The public key
// ---------------------------------------------------------------------------
/// Why a certificate gives no public key.
#[derive(Debug, Clone, Copy, PartialEq, Eq)]
pub enum KeyError {
    /// It cannot be parsed.
    Unparsable,
    /// The key's bit string does not end on a byte.
    UnusedBits,
}

/// The public key that `x509-cert` finds in a certificate: `None` where it cannot
/// parse it, and inside that `None` where the key's bit string has unused bits.
pub uninterp spec fn certificate_key(der: Seq<u8>) -> Option<Option<Seq<u8>>>;

/// `x509_cert::Certificate::from_der` and the bytes of the subject's public key.
/// Claimed: the answer depends on the certificate alone and goes by the name
/// [`certificate_key`].
#[verifier::external_body]
fn key_of_certificate(der: &[u8]) -> (key: Option<Option<Vec<u8>>>)
    ensures
        certificate_key(der@) == (match key {
            Some(Some(bytes)) => Some(Some(bytes@)),
            Some(None) => Some(None),
            None => None,
        }),
{
    let cert = x509_cert::Certificate::from_der(der).ok()?;
    Some(cert.tbs_certificate.subject_public_key_info.subject_public_key.as_bytes().map(<[u8]>::to_vec))
}

/// What a certificate's key amounts to.
pub open spec fn key_result(key: Option<Option<Seq<u8>>>) -> Result<Seq<u8>, KeyError> {
    match key {
        None => Err(KeyError::Unparsable),
        Some(None) => Err(KeyError::UnusedBits),
        Some(Some(bytes)) => Ok(bytes),
    }
}

/// What a certificate's key amounts to.
pub fn usable_key(key: Option<Option<Vec<u8>>>) -> (bytes: Result<Vec<u8>, KeyError>)
    ensures
        ({
            let seen = match key {
                Some(Some(b)) => Some(Some(b@)),
                Some(None) => Some(None),
                None => None,
            };
            match bytes {
                Ok(b) => key_result(seen) == Ok::<Seq<u8>, KeyError>(b@),
                Err(e) => key_result(seen) == Err::<Seq<u8>, KeyError>(e),
            }
        }),
{
    match key {
        None => Err(KeyError::Unparsable),
        Some(None) => Err(KeyError::UnusedBits),
        Some(Some(bytes)) => Ok(bytes),
    }
}

/// Takes the public key out of a certificate: the content of its bit string, which
/// the authentication binds to.
pub fn extract_public_key(cert_der: &[u8]) -> (bytes: Result<Vec<u8>, KeyError>)
    ensures
        match bytes {
            Ok(b) => key_result(certificate_key(cert_der@)) == Ok::<Seq<u8>, KeyError>(b@),
            Err(e) => key_result(certificate_key(cert_der@)) == Err::<Seq<u8>, KeyError>(e),
        },
{
    usable_key(key_of_certificate(cert_der))
}

// ---------------------------------------------------------------------------
// Laws
// ---------------------------------------------------------------------------
/// Whether a character is a lower-case hexadecimal digit.
pub open spec fn is_digit(c: char) -> bool {
    '0' <= c <= '9' || 'a' <= c <= 'f'
}

proof fn lemma_digit(n: int)
    requires
        0 <= n < 16,
    ensures
        is_digit(digit(n)),
        digit_value(digit(n)) == Some(n),
        digit(n) != '"',
        digit(n) != '\\',
        digit(n) as int >= 0x20,
        width(digit(n)) == 1,
{
}

proof fn lemma_hex_digits(bytes: Seq<u8>)
    ensures
        hex_text(bytes).len() == 2 * bytes.len(),
        forall|i: int| 0 <= i < hex_text(bytes).len() ==> is_digit(#[trigger] hex_text(bytes)[i]),
    decreases bytes.len(),
{
    if bytes.len() > 0 {
        lemma_hex_digits(bytes.drop_last());
        lemma_digit(bytes.last() as int / 16);
        lemma_digit(bytes.last() as int % 16);
        let front = hex_text(bytes.drop_last());
        assert forall|i: int| 0 <= i < hex_text(bytes).len() implies is_digit(#[trigger] hex_text(bytes)[i]) by {
            if i < front.len() {
                assert(hex_text(bytes)[i] == front[i]);
            }
        }
    }
}

/// Bytes take two lower-case digits each.
pub proof fn law_hex_length(bytes: Seq<u8>)
    ensures
        hex_text(bytes).len() == 2 * bytes.len(),
        forall|i: int| 0 <= i < hex_text(bytes).len() ==> is_digit(#[trigger] hex_text(bytes)[i]),
{
    lemma_hex_digits(bytes);
}

proof fn lemma_hex_front(bytes: Seq<u8>)
    requires
        bytes.len() > 0,
    ensures
        hex_text(bytes) == seq![digit(bytes[0] as int / 16), digit(bytes[0] as int % 16)] + hex_text(bytes.skip(1)),
    decreases bytes.len(),
{
    let head = seq![digit(bytes[0] as int / 16), digit(bytes[0] as int % 16)];
    if bytes.len() == 1 {
        assert(bytes.drop_last() =~= Seq::<u8>::empty());
        assert(bytes.skip(1) =~= Seq::<u8>::empty());
        assert(hex_text(bytes) =~= head + hex_text(bytes.skip(1)));
    } else {
        lemma_hex_front(bytes.drop_last());
        assert(bytes.drop_last().skip(1) =~= bytes.skip(1).drop_last());
        let tail = seq![digit(bytes.last() as int / 16), digit(bytes.last() as int % 16)];
        assert(hex_text(bytes) =~= head + (hex_text(bytes.skip(1).drop_last()) + tail));
    }
}

proof fn lemma_narrow_scalar(c: char)
    requires
        width(c) == 1,
    ensures
        vstd::utf8::encode_scalar(c as u32).len() == 1,
{
}

proof fn lemma_narrow_length(text: Seq<char>)
    requires
        forall|i: int| 0 <= i < text.len() ==> width(#[trigger] text[i]) == 1,
    ensures
        encode_utf8(text).len() == text.len(),
    decreases text.len(),
{
    if text.len() > 0 {
        assert forall|i: int| 0 <= i < text.drop_first().len() implies width(#[trigger] text.drop_first()[i]) == 1 by {
            assert(text.drop_first()[i] == text[i + 1]);
        }
        lemma_narrow_length(text.drop_first());
        assert(width(text[0]) == 1);
        lemma_narrow_scalar(text[0]);
    }
}

/// Reading what was written in hexadecimal gives the bytes back, for any bytes.
pub proof fn law_hex_round_trip(bytes: Seq<u8>)
    ensures
        hex_value(hex_text(bytes)) == Ok::<Seq<u8>, HexError>(bytes),
        cuts_cleanly(hex_text(bytes)),
{
    lemma_hex_digits(bytes);
    lemma_narrow_length(hex_text(bytes));
    lemma_pairs_of_hex(bytes);
}

proof fn lemma_pairs_of_hex(bytes: Seq<u8>)
    ensures
        pairs(hex_text(bytes)) == Some(bytes),
        cuts_cleanly(hex_text(bytes)),
    decreases bytes.len(),
{
    let text = hex_text(bytes);
    if bytes.len() == 0 {
        assert(text =~= Seq::<char>::empty());
        assert(bytes =~= Seq::<u8>::empty());
    } else {
        lemma_hex_front(bytes);
        lemma_pairs_of_hex(bytes.skip(1));
        let b = bytes[0];
        lemma_digit(b as int / 16);
        lemma_digit(b as int % 16);
        assert(text.skip(2) =~= hex_text(bytes.skip(1)));
        assert(text[0] == digit(b as int / 16) && text[1] == digit(b as int % 16));
        assert(pair_value(text[0], text[1]) == Some(b));
        assert(seq![b] + bytes.skip(1) =~= bytes);
    }
}

proof fn lemma_json_plain(text: Seq<char>)
    requires
        forall|i: int|
            0 <= i < text.len() ==> #[trigger] text[i] != '"' && text[i] != '\\' && text[i] as int >= 0x20,
    ensures
        json_inside(text) == text,
    decreases text.len(),
{
    if text.len() > 0 {
        lemma_json_plain(text.drop_last());
        let c = text.last();
        assert(json_escaped(c) == seq![c]);
        assert(text.drop_last() + seq![c] =~= text);
    } else {
        assert(json_inside(text) =~= text);
    }
}

/// Whatever certificate the proxy sends, the page takes exactly that certificate out
/// of the proxy's answer.
pub proof fn law_certificate_arrives(cert: Seq<u8>)
    ensures
        ({
            let answer = json_message("tls_ready"@, "server_cert"@, hex_text(cert));
            &&& ready_cert(answer) == Some(hex_text(cert))
            &&& hex_value(ready_cert(answer)->0) == Ok::<Seq<u8>, HexError>(cert)
            &&& cuts_cleanly(ready_cert(answer)->0)
        }),
{
    let hex = hex_text(cert);
    lemma_hex_digits(cert);
    law_hex_round_trip(cert);
    assert forall|i: int| 0 <= i < hex.len() implies #[trigger] hex[i] != '"' && hex[i] != '\\' && hex[i] as int >= 0x20 by {
        assert(is_digit(hex[i]));
    }
    lemma_json_plain(hex);
    reveal_strlit("{\"cmd\":\"");
    reveal_strlit("tls_ready");
    reveal_strlit("\",\"");
    reveal_strlit("server_cert");
    reveal_strlit("\":\"");
    reveal_strlit("\"}");
    reveal_strlit("\"server_cert\":\"");
    reveal_strlit("\"");
    lemma_json_plain("tls_ready"@);
    lemma_json_plain("server_cert"@);
    let answer = json_message("tls_ready"@, "server_cert"@, hex);
    let head = "{\"cmd\":\""@ + "tls_ready"@ + "\",\""@ + "server_cert"@ + "\":\""@;
    assert(answer =~= head + hex + "\"}"@);
    assert(head.len() == 34);
    assert(answer.subrange(8, 17) =~= "tls_ready"@);
    assert(occurs_at(answer, "tls_ready"@, 8));
    let marker = "\"server_cert\":\""@;
    assert(marker.len() == 15);
    assert(answer.subrange(19, 34) =~= marker);
    assert(occurs_at(answer, marker, 19));
    assert forall|j: int| 0 <= j < 19 implies !#[trigger] occurs_at(answer, marker, j) by {
        if occurs_at(answer, marker, j) {
            let here = answer.subrange(j, j + marker.len());
            assert(here[0] == '"' && here[1] == 's');
            assert(answer[j] == '"' && answer[j + 1] == 's');
            assert(answer[j] == head[j] && answer[j + 1] == head[j + 1]);
        }
    }
    lemma_place_is(answer, marker, 0, 19);
    let end = 34 + hex.len() as int;
    assert(answer.subrange(end, end + 1) =~= "\""@);
    assert(occurs_at(answer, "\""@, end));
    assert forall|j: int| 34 <= j < end implies !#[trigger] occurs_at(answer, "\""@, j) by {
        if occurs_at(answer, "\""@, j) {
            assert(answer.subrange(j, j + 1)[0] == '"');
            assert(answer[j] == hex[j - 34]);
        }
    }
    lemma_place_is(answer, "\""@, 34, end);
    assert(answer.subrange(34, end) =~= hex);
}

/// Hexadecimal is read pair by pair, the higher digit first, in either case; a plus sign before
/// a digit counts as nothing. A pair of anything else makes the whole text unreadable, and so
/// does a text of an odd number of bytes.
pub proof fn law_hex_is_read_pair_by_pair(text: Seq<char>, high: int, low: int, c: char, d: char)
    requires
        0 <= high < 16,
        0 <= low < 16,
        c as int == (if high < 10 {
            48 + high
        } else {
            87 + high
        }) || c as int == (if high < 10 {
            48 + high
        } else {
            55 + high
        }),
        d as int == (if low < 10 {
            48 + low
        } else {
            87 + low
        }) || d as int == (if low < 10 {
            48 + low
        } else {
            55 + low
        }),
    ensures
        pairs(text) is Some ==> pairs(seq![c, d] + text) == Some(seq![(16 * high + low) as u8] + pairs(text)->0),
        pairs(text) is Some ==> pairs(seq!['+', d] + text) == Some(seq![low as u8] + pairs(text)->0),
        pairs(text) is None ==> pairs(seq![c, d] + text) is None,
        encode_utf8(text).len() % 2 == 1 ==> hex_value(text) == Err::<Seq<u8>, HexError>(HexError::OddLength),
        encode_utf8(text).len() % 2 == 0 && pairs(text) is Some ==> hex_value(text) == Ok::<Seq<u8>, HexError>(
            pairs(text)->0,
        ),
        encode_utf8(text).len() % 2 == 0 && pairs(text) is None ==> hex_value(text) == Err::<Seq<u8>, HexError>(
            HexError::InvalidDigit,
        ),
        pairs(Seq::empty()) == Some(Seq::<u8>::empty()),
{
    assert((seq![c, d] + text).skip(2) =~= text);
    assert((seq!['+', d] + text).skip(2) =~= text);
}

/// A character that is no digit of either case stands in no pair, but for a plus sign that comes
/// first.
pub proof fn law_no_digit_no_pair(c: char, other: char, text: Seq<char>)
    requires
        !('0' <= c <= '9' || 'a' <= c <= 'f' || 'A' <= c <= 'F'),
    ensures
        pairs(seq![other, c] + text) is None,
        c != '+' ==> pairs(seq![c, other] + text) is None,
{
}

/// A message of the proxy that does not speak of TLS being ready, or holds no certificate, gives
/// the page none; a certificate of the page's own messages is what stands between its field's
/// quotation marks.
pub proof fn law_other_messages_hold_no_certificate(text: Seq<char>)
    ensures
        !occurs(text, "tls_ready"@) ==> ready_cert(text) is None,
        !occurs(text, "\"server_cert\":\""@) ==> ready_cert(text) is None,
{
    crate::text::lemma_place_of(text, "\"server_cert\":\""@, 0);
}

/// A text of an even number of ASCII characters can be cut into pairs, whatever they are; one
/// that begins with a character of two bytes needs no cut, and one that begins with a longer
/// character cannot be cut.
pub proof fn law_ascii_cuts_cleanly(text: Seq<char>)
    ensures
        text.len() % 2 == 0 && (forall|i: int| 0 <= i < text.len() ==> (#[trigger] text[i] as int) < 0x80)
            ==> cuts_cleanly(text),
        text.len() > 0 && 0x80 <= text[0] as int <= 0x7FF ==> cuts_cleanly(text),
        text.len() > 0 && text[0] as int > 0x7FF ==> !cuts_cleanly(text),
        text.len() >= 2 && (text[0] as int) < 0x80 && text[1] as int >= 0x80 ==> !cuts_cleanly(text),
    decreases text.len(),
{
    if text.len() % 2 == 0 && text.len() > 0 && (forall|i: int|
        0 <= i < text.len() ==> (#[trigger] text[i] as int) < 0x80) {
        let rest = text.skip(2);
        assert forall|i: int| 0 <= i < rest.len() implies (#[trigger] rest[i] as int) < 0x80 by {
            assert(rest[i] == text[i + 2]);
        }
        law_ascii_cuts_cleanly(rest);
        assert(width(text[0]) == 1 && width(text[1]) == 1);
    }
}

/// The certificate is what stands between the first mark of its field and the next quotation
/// mark, whatever stands before and behind them, in any text that speaks of TLS being ready.
pub proof fn law_certificate_stands_between_its_marks(before: Seq<char>, cert: Seq<char>, after: Seq<char>)
    requires
        ({
            let text = before + "\"server_cert\":\""@ + cert + "\""@ + after;
            &&& occurs(text, "tls_ready"@)
            &&& forall|j: int| 0 <= j < before.len() ==> !#[trigger] occurs_at(text, "\"server_cert\":\""@, j)
        }),
        forall|i: int| 0 <= i < cert.len() ==> #[trigger] cert[i] != '"',
    ensures
        ready_cert(before + "\"server_cert\":\""@ + cert + "\""@ + after) == Some(cert),
{
    let marker = "\"server_cert\":\""@;
    let quote = "\""@;
    reveal_strlit("\"");
    let text = before + marker + cert + quote + after;
    let at = before.len() as int;
    assert(text.subrange(at, at + marker.len()) =~= marker);
    assert(occurs_at(text, marker, at));
    lemma_place_is(text, marker, 0, at);
    let start = at + marker.len() as int;
    let end = start + cert.len() as int;
    assert(text.subrange(end, end + 1) =~= quote);
    assert(occurs_at(text, quote, end));
    assert forall|j: int| start <= j < end implies !#[trigger] occurs_at(text, quote, j) by {
        if occurs_at(text, quote, j) {
            assert(text.subrange(j, j + 1)[0] == '"');
            assert(text[j] == cert[j - start]);
        }
    }
    lemma_place_is(text, quote, start, end);
    assert(text.subrange(start, end) =~= cert);
}

} // verus!
