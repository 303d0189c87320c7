//! Server redirection: completing a handover to another session over RDSTLS.
//!
//! The redirection packet carries a routing token and credentials that the client
//! cannot read. On a new connection the client presents the token, upgrades to TLS,
//! and replays the credentials as they came.

use base64::Engine;
use ironrdp::pdu::nego;
use ironrdp::pdu::x224::X224;
use vstd::prelude::*;
use vstd::utf8::{decode_utf8, encode_utf8, valid_utf8};

use crate::text::{chars_of, matches_at, occurs_at, put_text, string_of, trim, trimmed};
use crate::tls::{hex_encode, hex_text};
use crate::utf16::{decode, units_of, until_zero, utf16le_to_string};
use crate::wire::{copied, get_le16, get_le32, le16_at, le16_bytes, le32_at, put_bytes, put_le16};

verus! {

pub const RDSTLS_VERSION_1: u16 = 1;
pub const RDSTLS_TYPE_CAPABILITIES: u16 = 1;
pub const RDSTLS_TYPE_AUTHREQ: u16 = 2;
pub const RDSTLS_TYPE_AUTHRSP: u16 = 4;
pub const RDSTLS_DATA_PASSWORD_CREDS: u16 = 1;
pub const RDSTLS_RESULT_SUCCESS: u32 = 0;

/// The security protocol bit of RDSTLS.
pub const PROTOCOL_RDSTLS: u32 = 0x0000_0004;

/// The length of the server's capabilities.
pub const CAPABILITIES_LEN: usize = 8;

/// The length of the server's answer to the credentials.
pub const RESPONSE_LEN: usize = 10;

/// Why a handover fails.
#[derive(Debug, Clone, Copy, PartialEq, Eq)]
pub enum RedirectError {
    CapabilitiesTooShort(usize),
    NotCapabilities(u16),
    VersionUnsupported { version: u16, supported: u16 },
    ResponseTooShort(usize),
    NotResponse(u16),
    /// The server refused the credentials.
    Denied(u32),
    /// The routing token does not fit into a connection request.
    RequestTooLong,
    ConfirmUnreadable,
    NegotiationFailed(u32),
    RdstlsNotSelected(u32),
    /// Something happened that was not waited for.
    OutOfOrder,
}

/// What the server's capabilities say: nothing but version 1 will do.
pub open spec fn capabilities_result(data: Seq<u8>) -> Result<(), RedirectError> {
    if data.len() < 8 {
        Err(RedirectError::CapabilitiesTooShort(data.len() as usize))
    } else if le16_at(data, 2) != RDSTLS_TYPE_CAPABILITIES {
        Err(RedirectError::NotCapabilities(le16_at(data, 2)))
    } else if le16_at(data, 0) != RDSTLS_VERSION_1 || le16_at(data, 6) & RDSTLS_VERSION_1 == 0 {
        Err(RedirectError::VersionUnsupported { version: le16_at(data, 0), supported: le16_at(data, 6) })
    } else {
        Ok(())
    }
}

/// What the server's answer to the credentials says.
pub open spec fn response_result(data: Seq<u8>) -> Result<(), RedirectError> {
    if data.len() < 10 {
        Err(RedirectError::ResponseTooShort(data.len() as usize))
    } else if le16_at(data, 2) != RDSTLS_TYPE_AUTHRSP {
        Err(RedirectError::NotResponse(le16_at(data, 2)))
    } else if le32_at(data, 6) != RDSTLS_RESULT_SUCCESS {
        Err(RedirectError::Denied(le32_at(data, 6)))
    } else {
        Ok(())
    }
}

/// A field of the credentials: its length in 16 bits, then its bytes.
pub open spec fn counted(field: Seq<u8>) -> Seq<u8> {
    le16_bytes((field.len() % 0x1_0000) as u16) + field
}

/// The credentials as they are sent.
pub open spec fn auth_request(guid: Seq<u8>, user_name: Seq<u8>, domain: Seq<u8>, password: Seq<u8>) -> Seq<u8> {
    le16_bytes(RDSTLS_VERSION_1) + le16_bytes(RDSTLS_TYPE_AUTHREQ) + le16_bytes(RDSTLS_DATA_PASSWORD_CREDS)
        + counted(guid) + counted(user_name) + counted(domain) + counted(password)
}

/// Checks the server's capabilities.
pub fn parse_capabilities(data: &[u8]) -> (result: Result<(), RedirectError>)
    ensures
        result == capabilities_result(data@),
{
    if data.len() < CAPABILITIES_LEN {
        return Err(RedirectError::CapabilitiesTooShort(data.len()));
    }
    let version: u16 = get_le16(data, 0);
    let pdu_type: u16 = get_le16(data, 2);
    let supported: u16 = get_le16(data, 6);
    if pdu_type != RDSTLS_TYPE_CAPABILITIES {
        return Err(RedirectError::NotCapabilities(pdu_type));
    }
    if version != RDSTLS_VERSION_1 || supported & RDSTLS_VERSION_1 == 0 {
        return Err(RedirectError::VersionUnsupported { version, supported });
    }
    Ok(())
}

fn put_counted(buf: &mut Vec<u8>, field: &[u8])
    ensures
        final(buf)@ == old(buf)@ + counted(field@),
{
    put_le16(buf, (field.len() % 0x1_0000) as u16);
    put_bytes(buf, field);
    assert(buf@ =~= old(buf)@ + counted(field@));
}

/// Builds the request that replays the credentials of the redirection packet, each
/// field verbatim.
pub fn build_auth_request(redirection_guid: &[u8], user_name: &[u8], domain: &[u8], password: &[u8]) -> (buf: Vec<u8>)
    ensures
        buf@ == auth_request(redirection_guid@, user_name@, domain@, password@),
{
    let mut buf: Vec<u8> = Vec::new();
    put_le16(&mut buf, RDSTLS_VERSION_1);
    put_le16(&mut buf, RDSTLS_TYPE_AUTHREQ);
    put_le16(&mut buf, RDSTLS_DATA_PASSWORD_CREDS);
    assert(buf@ =~= le16_bytes(RDSTLS_VERSION_1) + le16_bytes(RDSTLS_TYPE_AUTHREQ) + le16_bytes(
        RDSTLS_DATA_PASSWORD_CREDS,
    ));
    put_counted(&mut buf, redirection_guid);
    put_counted(&mut buf, user_name);
    put_counted(&mut buf, domain);
    put_counted(&mut buf, password);
    buf
}

/// Checks the server's answer to the credentials.
pub fn parse_auth_response(data: &[u8]) -> (result: Result<(), RedirectError>)
    ensures
        result == response_result(data@),
{
    if data.len() < RESPONSE_LEN {
        return Err(RedirectError::ResponseTooShort(data.len()));
    }
    let pdu_type: u16 = get_le16(data, 2);
    if pdu_type != RDSTLS_TYPE_AUTHRSP {
        return Err(RedirectError::NotResponse(pdu_type));
    }
    let result_code: u32 = get_le32(data, 6);
    if result_code != RDSTLS_RESULT_SUCCESS {
        return Err(RedirectError::Denied(result_code));
    }
    Ok(())
}

/// What a refusal means.
pub open spec fn result_text(code: u32) -> Seq<char> {
    if code == 0x0000_0005 {
        "access denied"@
    } else if code == 0x0000_052e {
        "logon failure (unknown username or bad password)"@
    } else if code == 0x0000_0530 {
        "invalid logon hours"@
    } else if code == 0x0000_0532 {
        "password expired"@
    } else if code == 0x0000_0533 {
        "account disabled"@
    } else if code == 0x0000_0773 {
        "password must change"@
    } else if code == 0x0000_0775 {
        "account locked out"@
    } else {
        "unknown error"@
    }
}

/// Says what a refusal means.
pub fn describe_result_code(code: u32) -> (text: &'static str)
    ensures
        text@ == result_text(code),
{
    match code {
        0x0000_0005 => "access denied",
        0x0000_052e => "logon failure (unknown username or bad password)",
        0x0000_0530 => "invalid logon hours",
        0x0000_0532 => "password expired",
        0x0000_0533 => "account disabled",
        0x0000_0773 => "password must change",
        0x0000_0775 => "account locked out",
        _ => "unknown error",
    }
}

/// The bytes of a 32-bit integer, the most significant first.
pub open spec fn be32_bytes(value: u32) -> Seq<u8> {
    seq![
        (value / 0x100_0000) as u8,
        (value / 0x1_0000 % 0x100) as u8,
        (value / 0x100 % 0x100) as u8,
        (value % 0x100) as u8,
    ]
}

/// What the user is told of a refusal: its meaning, and its code in eight digits.
pub open spec fn denial_text(code: u32) -> Seq<char> {
    "RDSTLS authentication failed: "@ + result_text(code) + " (0x"@ + hex_text(be32_bytes(code)) + ")"@
}

/// Tells the user of a refusal.
pub fn describe_denial(code: u32) -> (text: String)
    ensures
        text@ == denial_text(code),
{
    let mut bytes: Vec<u8> = Vec::new();
    bytes.push((code / 0x100_0000) as u8);
    bytes.push((code / 0x1_0000 % 0x100) as u8);
    bytes.push((code / 0x100 % 0x100) as u8);
    bytes.push((code % 0x100) as u8);
    assert(bytes@ =~= be32_bytes(code));
    let mut text = String::new();
    put_text(&mut text, "RDSTLS authentication failed: ");
    put_text(&mut text, describe_result_code(code));
    put_text(&mut text, " (0x");
    put_text(&mut text, hex_encode(bytes.as_slice()).as_str());
    put_text(&mut text, ")");
    assert(text@ =~= denial_text(code));
    text
}

// ---------------------------------------------------------------------------
// The certificate pin
// ---------------------------------------------------------------------------
/// What a check of the presented certificate against the redirection packet gives.
/// None of it stops the handover.
#[derive(Debug, Clone, Copy, PartialEq, Eq)]
pub enum CertPin {
    /// The packet holds no certificate.
    NotGiven,
    Matches,
    Mismatch,
    /// The packet's certificate cannot be decoded.
    Undecodable,
}

/// What the standard base64 engine of the `base64` crate decodes a text to; `None`
/// where it gives an error.
pub uninterp spec fn base64_decoded(text: Seq<char>) -> Option<Seq<u8>>;

/// `base64::engine::general_purpose::STANDARD.decode`. Claimed: what it gives
/// depends on the text alone and goes by the name [`base64_decoded`].
#[verifier::external_body]
fn base64_decode(text: &str) -> (bytes: Option<Vec<u8>>)
    ensures
        match bytes {
            Some(b) => base64_decoded(text@) == Some(b@),
            None => base64_decoded(text@) is None,
        },
{
    base64::engine::general_purpose::STANDARD.decode(text).ok()
}

/// Whether `needle` is not empty and stands in `hay`.
pub open spec fn holds(hay: Seq<u8>, needle: Seq<u8>) -> bool {
    needle.len() > 0 && exists|at: int|
        0 <= at <= hay.len() - needle.len() && #[trigger] hay.subrange(at, at + needle.len()) == needle
}

/// The outcome of a check, given the decoded certificate container.
pub open spec fn pin_of(decoded: Option<Seq<u8>>, presented: Seq<u8>) -> CertPin {
    match decoded {
        Some(container) => if holds(container, presented) {
            CertPin::Matches
        } else {
            CertPin::Mismatch
        },
        None => CertPin::Undecodable,
    }
}

/// The text of a certificate field: UTF-16 up to a zero, white space trimmed.
pub open spec fn certificate_text(field: Seq<u8>) -> Seq<char> {
    trimmed(decode(until_zero(units_of(field))))
}

/// The outcome of a check.
pub open spec fn pin_result(target: Option<Seq<u8>>, presented: Seq<u8>) -> CertPin {
    match target {
        None => CertPin::NotGiven,
        Some(field) => pin_of(base64_decoded(certificate_text(field)), presented),
    }
}

fn starts_at(hay: &[u8], needle: &[u8], at: usize) -> (found: bool)
    requires
        at + needle@.len() <= hay@.len(),
    ensures
        found == (hay@.subrange(at as int, at + needle@.len()) == needle@),
{
    let mut i: usize = 0;
    while i < needle.len()
        invariant
            i <= needle@.len(),
            at + needle@.len() <= hay.len(),
            forall|j: int| 0 <= j < i ==> hay@[at + j] == needle@[j],
        decreases needle@.len() - i,
    {
        if hay[at + i] != needle[i] {
            assert(hay@.subrange(at as int, at + needle@.len())[i as int] != needle@[i as int]);
            return false;
        }
        i = i + 1;
    }
    assert(hay@.subrange(at as int, at + needle@.len()) =~= needle@);
    true
}

/// Whether `needle` is not empty and stands in `haystack`.
pub fn contains_subslice(haystack: &[u8], needle: &[u8]) -> (found: bool)
    ensures
        found == holds(haystack@, needle@),
{
    if needle.len() == 0 || needle.len() > haystack.len() {
        return false;
    }
    let last: usize = haystack.len() - needle.len();
    let mut at: usize = 0;
    loop
        invariant
            needle@.len() > 0,
            last == haystack.len() - needle.len(),
            needle.len() <= haystack.len(),
            at <= last,
            forall|j: int| 0 <= j < at ==> #[trigger] haystack@.subrange(j, j + needle@.len()) != needle@,
        decreases last - at,
    {
        if starts_at(haystack, needle, at) {
            assert(haystack@.subrange(at as int, at + needle@.len()) == needle@);
            return true;
        }
        if at == last {
            return false;
        }
        at = at + 1;
    }
}

/// What a decoded certificate container says of the presented certificate.
pub fn pin_of_decoded(decoded: Option<Vec<u8>>, presented_der: &[u8]) -> (pin: CertPin)
    ensures
        pin == pin_of(
            match decoded {
                Some(container) => Some(container@),
                None => None,
            },
            presented_der@,
        ),
{
    match decoded {
        Some(container) => if contains_subslice(container.as_slice(), presented_der) {
            CertPin::Matches
        } else {
            CertPin::Mismatch
        },
        None => CertPin::Undecodable,
    }
}

/// Checks whether the certificate that TLS presented stands in the redirection
/// packet's certificate container, which is base64 in UTF-16.
pub fn check_cert_pin(target_certificate: Option<&[u8]>, presented_der: &[u8]) -> (pin: CertPin)
    ensures
        pin == pin_result(
            match target_certificate {
                Some(field) => Some(field@),
                None => None,
            },
            presented_der@,
        ),
{
    match target_certificate {
        None => CertPin::NotGiven,
        Some(field) => {
            let text = utf16le_to_string(field);
            let inner = trim(text.as_str());
            pin_of_decoded(base64_decode(inner.as_str()), presented_der)
        }
    }
}

// ---------------------------------------------------------------------------
// The redirection packet
// ---------------------------------------------------------------------------
/// The fields of a redirection packet that a handover needs.
#[derive(Debug, PartialEq, Eq)]
pub struct RedirectionPacket {
    pub load_balance_info: Option<Vec<u8>>,
    pub user_name: Option<Vec<u8>>,
    pub domain: Option<Vec<u8>>,
    pub password: Option<Vec<u8>>,
    pub redirection_guid: Option<Vec<u8>>,
    pub target_certificate: Option<Vec<u8>>,
}

/// What is kept of a redirection packet until the new connection stands.
#[derive(Debug, PartialEq, Eq)]
pub struct PendingRedirect {
    pub routing_token: Option<Vec<u8>>,
    pub user_name: Vec<u8>,
    pub domain: Vec<u8>,
    pub password: Vec<u8>,
    pub redirection_guid: Vec<u8>,
    pub target_certificate: Option<Vec<u8>>,
}

/// The mathematical value of a [`PendingRedirect`].
pub struct PendingView {
    pub routing_token: Option<Seq<u8>>,
    pub user_name: Seq<u8>,
    pub domain: Seq<u8>,
    pub password: Seq<u8>,
    pub redirection_guid: Seq<u8>,
    pub target_certificate: Option<Seq<u8>>,
}

/// The bytes of a field, if it is there.
pub open spec fn field_view(field: Option<Vec<u8>>) -> Option<Seq<u8>> {
    match field {
        Some(bytes) => Some(bytes@),
        None => None,
    }
}

/// The bytes of a field, none if it is not there.
pub open spec fn field_bytes(field: Option<Vec<u8>>) -> Seq<u8> {
    match field {
        Some(bytes) => bytes@,
        None => Seq::empty(),
    }
}

impl View for PendingRedirect {
    type V = PendingView;

    open spec fn view(&self) -> PendingView {
        PendingView {
            routing_token: field_view(self.routing_token),
            user_name: self.user_name@,
            domain: self.domain@,
            password: self.password@,
            redirection_guid: self.redirection_guid@,
            target_certificate: field_view(self.target_certificate),
        }
    }
}

fn copied_field(field: &Option<Vec<u8>>) -> (copy: Option<Vec<u8>>)
    ensures
        field_view(copy) == field_view(*field),
{
    match field {
        Some(bytes) => Some(copied(bytes.as_slice())),
        None => None,
    }
}

fn copied_bytes(field: &Option<Vec<u8>>) -> (copy: Vec<u8>)
    ensures
        copy@ == field_bytes(*field),
{
    match field {
        Some(bytes) => copied(bytes.as_slice()),
        None => {
            let none: Vec<u8> = Vec::new();
            assert(none@ =~= Seq::<u8>::empty());
            none
        }
    }
}

impl PendingRedirect {
    /// Takes the fields out of a packet: absent credentials are empty ones.
    pub fn from_packet(packet: &RedirectionPacket) -> (pending: Self)
        ensures
            pending@ == (PendingView {
                routing_token: field_view(packet.load_balance_info),
                user_name: field_bytes(packet.user_name),
                domain: field_bytes(packet.domain),
                password: field_bytes(packet.password),
                redirection_guid: field_bytes(packet.redirection_guid),
                target_certificate: field_view(packet.target_certificate),
            }),
    {
        PendingRedirect {
            routing_token: copied_field(&packet.load_balance_info),
            user_name: copied_bytes(&packet.user_name),
            domain: copied_bytes(&packet.domain),
            password: copied_bytes(&packet.password),
            redirection_guid: copied_bytes(&packet.redirection_guid),
            target_certificate: copied_field(&packet.target_certificate),
        }
    }
}

// ---------------------------------------------------------------------------
// The connection request
// ---------------------------------------------------------------------------
/// What `String::from_utf8_lossy` reads from bytes.
pub uninterp spec fn utf8_lossy(bytes: Seq<u8>) -> Seq<char>;

/// `String::from_utf8_lossy`. Claimed: the text depends on the bytes alone and goes
/// by the name [`utf8_lossy`]; valid UTF-8 reads as what it encodes.
#[verifier::external_body]
fn from_utf8_lossy(bytes: &[u8]) -> (text: String)
    ensures
        text@ == utf8_lossy(bytes@),
        valid_utf8(bytes@) ==> text@ == decode_utf8(bytes@),
{
    String::from_utf8_lossy(bytes).into_owned()
}

/// A text without carriage returns and line feeds at its end.
pub open spec fn without_line_end(text: Seq<char>) -> Seq<char>
    decreases text.len(),
{
    if text.len() > 0 && (text.last() == '\r' || text.last() == '\n') {
        without_line_end(text.drop_last())
    } else {
        text
    }
}

/// The value of a routing token line: without its line end and its prefix.
pub open spec fn token_value(line: Seq<char>) -> Seq<char> {
    let bare = without_line_end(line);
    if occurs_at(bare, "Cookie: msts="@, 0) {
        bare.skip("Cookie: msts="@.len() as int)
    } else {
        bare
    }
}

/// Takes the value out of a routing token line.
pub fn value_of_token(line: &str) -> (value: String)
    ensures
        value@ == token_value(line@),
{
    let chars = chars_of(line);
    let mut to: usize = chars.len();
    assert(chars@.take(to as int) =~= chars@);
    while to > 0 && (chars[to - 1] == '\r' || chars[to - 1] == '\n')
        invariant
            to <= chars@.len(),
            without_line_end(chars@.take(to as int)) == without_line_end(chars@),
        decreases to,
    {
        assert(chars@.take(to as int).drop_last() =~= chars@.take(to - 1));
        to = to - 1;
    }
    let ghost bare = chars@.take(to as int);
    let prefix = chars_of("Cookie: msts=");
    let mut bare_chars = chars;
    bare_chars.truncate(to);
    assert(bare_chars@ =~= bare);
    if matches_at(&bare_chars, &prefix, 0) {
        let value = string_of(&bare_chars, prefix.len(), to);
        assert(value@ =~= bare.skip(prefix@.len() as int));
        value
    } else {
        let value = string_of(&bare_chars, 0, to);
        assert(value@ =~= bare);
        value
    }
}

/// The routing token line of a connection request.
pub open spec fn token_line(token: Option<Seq<char>>) -> Seq<u8> {
    match token {
        Some(value) => encode_utf8("Cookie: msts="@) + encode_utf8(value) + seq![0x0Du8, 0x0A],
        None => Seq::empty(),
    }
}

/// Whether a connection request can hold a routing token: the header behind its own
/// length byte takes at most 255 bytes.
pub open spec fn request_fits(token: Option<Seq<char>>) -> bool {
    14 + token_line(token).len() <= 255
}

/// A connection request for TLS or RDSTLS: a TPKT header (version 3, the whole
/// length), a TPDU header (its length, the code, references and class), the token
/// line, and the negotiation request (type 1, no flags, 8 bytes, the protocols).
pub open spec fn request_bytes(token: Option<Seq<char>>) -> Seq<u8> {
    let line = token_line(token);
    let whole = 19 + line.len();
    seq![
        3u8, 0u8, (whole / 0x100) as u8, (whole % 0x100) as u8,
        (14 + line.len()) as u8, 0xE0u8, 0u8, 0u8, 0u8, 0u8, 0u8,
    ] + line + seq![1u8, 0u8, 8u8, 0u8, 5u8, 0u8, 0u8, 0u8]
}

/// Encodes the X.224 connection request of `ironrdp_pdu::nego` for TLS or RDSTLS,
/// without flags, with `ironrdp_core::encode_vec`. Claimed: the bytes are those of
/// [`request_bytes`], and it fails exactly where the header does not fit.
#[verifier::external_body]
fn encode_request(token: Option<String>) -> (bytes: Option<Vec<u8>>)
    ensures
        ({
            let value = match token {
                Some(t) => Some(t@),
                None => None,
            };
            match bytes {
                Some(b) => request_fits(value) && b@ == request_bytes(value),
                None => !request_fits(value),
            }
        }),
{
    ironrdp_core::encode_vec(&X224(nego::ConnectionRequest {
        nego_data: token.map(nego::NegoRequestData::routing_token),
        flags: nego::RequestFlags::empty(),
        protocol: nego::SecurityProtocol::SSL | nego::SecurityProtocol::RDSTLS,
    }))
    .ok()
}

/// The text of a routing token line.
pub open spec fn line_text(bytes: Seq<u8>) -> Seq<char> {
    if valid_utf8(bytes) {
        decode_utf8(bytes)
    } else {
        utf8_lossy(bytes)
    }
}

/// The routing token that a handover presents.
pub open spec fn presented_token(routing_token: Option<Seq<u8>>) -> Option<Seq<char>> {
    match routing_token {
        Some(bytes) => Some(token_value(line_text(bytes))),
        None => None,
    }
}

/// Builds the first message of a handover.
pub fn connection_request(pending: &PendingRedirect) -> (bytes: Result<Vec<u8>, RedirectError>)
    ensures
        ({
            let token = presented_token(pending@.routing_token);
            match bytes {
                Ok(b) => request_fits(token) && b@ == request_bytes(token),
                Err(e) => !request_fits(token) && e == RedirectError::RequestTooLong,
            }
        }),
{
    let token: Option<String> = match &pending.routing_token {
        Some(bytes) => {
            let line = from_utf8_lossy(bytes.as_slice());
            Some(value_of_token(line.as_str()))
        }
        None => None,
    };
    match encode_request(token) {
        Some(bytes) => Ok(bytes),
        None => Err(RedirectError::RequestTooLong),
    }
}

/// The server's answer to a connection request.
#[derive(Debug, Clone, Copy, PartialEq, Eq)]
pub enum NegoConfirm {
    /// The selected protocols.
    Response(u32),
    Failure(u32),
}

/// What `ironrdp_core::decode` reads from an X.224 connection confirm; `None` where
/// it gives an error.
pub uninterp spec fn outside_confirm(bytes: Seq<u8>) -> Option<NegoConfirm>;

/// `ironrdp_core::decode` of an X.224 connection confirm of `ironrdp_pdu::nego`.
/// Claimed: what it reads depends on the bytes alone and goes by the name
/// [`outside_confirm`].
#[verifier::external_body]
fn decode_confirm(bytes: &[u8]) -> (confirm: Option<NegoConfirm>)
    ensures
        confirm == outside_confirm(bytes@),
{
    match ironrdp_core::decode::<X224<nego::ConnectionConfirm>>(bytes).ok()?.0 {
        nego::ConnectionConfirm::Response { protocol, .. } => Some(NegoConfirm::Response(protocol.bits())),
        nego::ConnectionConfirm::Failure { code } => Some(NegoConfirm::Failure(code.into())),
    }
}

/// What the server's answer means: it must have selected RDSTLS.
pub open spec fn selection(confirm: Option<NegoConfirm>) -> Result<u32, RedirectError> {
    match confirm {
        None => Err(RedirectError::ConfirmUnreadable),
        Some(NegoConfirm::Failure(code)) => Err(RedirectError::NegotiationFailed(code)),
        Some(NegoConfirm::Response(protocol)) => if protocol & PROTOCOL_RDSTLS == PROTOCOL_RDSTLS {
            Ok(protocol)
        } else {
            Err(RedirectError::RdstlsNotSelected(protocol))
        },
    }
}

/// Checks that the server selected RDSTLS.
pub fn selected_protocol(confirm: Option<NegoConfirm>) -> (protocol: Result<u32, RedirectError>)
    ensures
        protocol == selection(confirm),
{
    match confirm {
        None => Err(RedirectError::ConfirmUnreadable),
        Some(NegoConfirm::Failure(code)) => Err(RedirectError::NegotiationFailed(code)),
        Some(NegoConfirm::Response(protocol)) => if protocol & PROTOCOL_RDSTLS == PROTOCOL_RDSTLS {
            Ok(protocol)
        } else {
            Err(RedirectError::RdstlsNotSelected(protocol))
        },
    }
}

// ---------------------------------------------------------------------------
// The handover, step by step
// ---------------------------------------------------------------------------
/// What a handover waits for.
#[derive(Debug, Clone, Copy, PartialEq, Eq)]
pub enum RedirectState {
    Start,
    RequestSent,
    AwaitingConfirm,
    AwaitingTls { protocol: u32 },
    AwaitingCapabilities { protocol: u32 },
    CredentialsSent { protocol: u32 },
    AwaitingResponse { protocol: u32 },
    Done,
    Failed,
}

/// What happened.
#[derive(Debug, PartialEq, Eq)]
pub enum RedirectEvent {
    /// The new connection is open.
    Opened,
    /// What was to be sent is sent.
    Sent,
    /// What was to be read has come.
    Received(Vec<u8>),
    /// TLS stands; the server presented this certificate.
    TlsReady(Vec<u8>),
}

/// What is to be done next.
#[derive(Debug, PartialEq, Eq)]
pub enum RedirectAction {
    Send(Vec<u8>),
    /// Read one X.224 PDU.
    ReadX224,
    UpgradeTls,
    /// Read that many bytes.
    ReadExact(usize),
    /// Go on with the ordinary connection, the protocol selected.
    Finish { protocol: u32 },
}

/// The mathematical value of a [`RedirectEvent`].
pub enum RedirectEventView {
    Opened,
    Sent,
    Received(Seq<u8>),
    TlsReady(Seq<u8>),
}

/// The mathematical value of a [`RedirectAction`].
pub enum RedirectActionView {
    Send(Seq<u8>),
    ReadX224,
    UpgradeTls,
    ReadExact(usize),
    Finish { protocol: u32 },
}

impl View for RedirectEvent {
    type V = RedirectEventView;

    open spec fn view(&self) -> RedirectEventView {
        match *self {
            RedirectEvent::Opened => RedirectEventView::Opened,
            RedirectEvent::Sent => RedirectEventView::Sent,
            RedirectEvent::Received(bytes) => RedirectEventView::Received(bytes@),
            RedirectEvent::TlsReady(der) => RedirectEventView::TlsReady(der@),
        }
    }
}

impl View for RedirectAction {
    type V = RedirectActionView;

    open spec fn view(&self) -> RedirectActionView {
        match *self {
            RedirectAction::Send(bytes) => RedirectActionView::Send(bytes@),
            RedirectAction::ReadX224 => RedirectActionView::ReadX224,
            RedirectAction::UpgradeTls => RedirectActionView::UpgradeTls,
            RedirectAction::ReadExact(n) => RedirectActionView::ReadExact(n),
            RedirectAction::Finish { protocol } => RedirectActionView::Finish { protocol },
        }
    }
}

/// The credentials that a handover replays.
pub open spec fn credentials(p: PendingView) -> Seq<u8> {
    auth_request(p.redirection_guid, p.user_name, p.domain, p.password)
}

/// One step of a handover: where it stands afterwards, and what to do. `confirm` is
/// what a received connection confirm reads as.
pub open spec fn handover_step(
    p: PendingView,
    state: RedirectState,
    event: RedirectEventView,
    confirm: Option<NegoConfirm>,
) -> (RedirectState, Result<RedirectActionView, RedirectError>) {
    match (state, event) {
        (RedirectState::Start, RedirectEventView::Opened) => {
            let token = presented_token(p.routing_token);
            if request_fits(token) {
                (RedirectState::RequestSent, Ok(RedirectActionView::Send(request_bytes(token))))
            } else {
                (RedirectState::Failed, Err(RedirectError::RequestTooLong))
            }
        },
        (RedirectState::RequestSent, RedirectEventView::Sent) => (
            RedirectState::AwaitingConfirm,
            Ok(RedirectActionView::ReadX224),
        ),
        (RedirectState::AwaitingConfirm, RedirectEventView::Received(_)) => match selection(confirm) {
            Ok(protocol) => (RedirectState::AwaitingTls { protocol }, Ok(RedirectActionView::UpgradeTls)),
            Err(e) => (RedirectState::Failed, Err(e)),
        },
        // A certificate that does not match the packet's does not stop the handover.
        (RedirectState::AwaitingTls { protocol }, RedirectEventView::TlsReady(_)) => (
            RedirectState::AwaitingCapabilities { protocol },
            Ok(RedirectActionView::ReadExact(CAPABILITIES_LEN)),
        ),
        (RedirectState::AwaitingCapabilities { protocol }, RedirectEventView::Received(bytes)) =>
            match capabilities_result(bytes) {
                Ok(_) => (
                    RedirectState::CredentialsSent { protocol },
                    Ok(RedirectActionView::Send(credentials(p))),
                ),
                Err(e) => (RedirectState::Failed, Err(e)),
            },
        (RedirectState::CredentialsSent { protocol }, RedirectEventView::Sent) => (
            RedirectState::AwaitingResponse { protocol },
            Ok(RedirectActionView::ReadExact(RESPONSE_LEN)),
        ),
        (RedirectState::AwaitingResponse { protocol }, RedirectEventView::Received(bytes)) => match response_result(
            bytes,
        ) {
            Ok(_) => (RedirectState::Done, Ok(RedirectActionView::Finish { protocol })),
            Err(e) => (RedirectState::Failed, Err(e)),
        },
        _ => (RedirectState::Failed, Err(RedirectError::OutOfOrder)),
    }
}

/// A handover in progress.
#[derive(Debug, PartialEq, Eq)]
pub struct RedirectHandshake {
    pub pending: PendingRedirect,
    pub state: RedirectState,
    /// What the check of the certificate gave, once TLS stood.
    pub cert_pin: Option<CertPin>,
}

/// What the check of the certificate gives in a step.
pub open spec fn pin_after(p: PendingView, state: RedirectState, event: RedirectEventView, before: Option<CertPin>) -> Option<
    CertPin,
> {
    match (state, event) {
        (RedirectState::AwaitingTls { .. }, RedirectEventView::TlsReady(der)) => Some(
            pin_result(p.target_certificate, der),
        ),
        _ => before,
    }
}

/// The mathematical value of a step's answer.
pub open spec fn action_view(action: Result<RedirectAction, RedirectError>) -> Result<
    RedirectActionView,
    RedirectError,
> {
    match action {
        Ok(a) => Ok(a@),
        Err(e) => Err(e),
    }
}

impl RedirectHandshake {
    pub fn new(pending: PendingRedirect) -> (handshake: Self)
        ensures
            handshake.pending == pending,
            handshake.state == RedirectState::Start,
            handshake.cert_pin is None,
    {
        RedirectHandshake { pending, state: RedirectState::Start, cert_pin: None }
    }

    /// Takes what happened and gives what to do next, where a received connection
    /// confirm has been read already.
    pub fn step(&mut self, event: RedirectEvent, confirm: Option<NegoConfirm>) -> (action: Result<
        RedirectAction,
        RedirectError,
    >)
        ensures
            final(self).pending == old(self).pending,
            final(self).cert_pin == pin_after(
                old(self).pending@,
                old(self).state,
                event@,
                old(self).cert_pin,
            ),
            (final(self).state, action_view(action)) == handover_step(
                old(self).pending@,
                old(self).state,
                event@,
                confirm,
            ),
    {
        let (state, action) = match (self.state, event) {
            (RedirectState::Start, RedirectEvent::Opened) => match connection_request(&self.pending) {
                Ok(bytes) => (RedirectState::RequestSent, Ok(RedirectAction::Send(bytes))),
                Err(e) => (RedirectState::Failed, Err(e)),
            },
            (RedirectState::RequestSent, RedirectEvent::Sent) => {
                (RedirectState::AwaitingConfirm, Ok(RedirectAction::ReadX224))
            }
            (RedirectState::AwaitingConfirm, RedirectEvent::Received(_)) => match selected_protocol(confirm) {
                Ok(protocol) => (RedirectState::AwaitingTls { protocol }, Ok(RedirectAction::UpgradeTls)),
                Err(e) => (RedirectState::Failed, Err(e)),
            },
            (RedirectState::AwaitingTls { protocol }, RedirectEvent::TlsReady(der)) => {
                let target: Option<&[u8]> = match &self.pending.target_certificate {
                    Some(field) => Some(field.as_slice()),
                    None => None,
                };
                self.cert_pin = Some(check_cert_pin(target, der.as_slice()));
                (
                    RedirectState::AwaitingCapabilities { protocol },
                    Ok(RedirectAction::ReadExact(CAPABILITIES_LEN)),
                )
            }
            (RedirectState::AwaitingCapabilities { protocol }, RedirectEvent::Received(bytes)) =>
                match parse_capabilities(bytes.as_slice()) {
                    Ok(_) => {
                        let request = build_auth_request(
                            self.pending.redirection_guid.as_slice(),
                            self.pending.user_name.as_slice(),
                            self.pending.domain.as_slice(),
                            self.pending.password.as_slice(),
                        );
                        (RedirectState::CredentialsSent { protocol }, Ok(RedirectAction::Send(request)))
                    }
                    Err(e) => (RedirectState::Failed, Err(e)),
                },
            (RedirectState::CredentialsSent { protocol }, RedirectEvent::Sent) => {
                (RedirectState::AwaitingResponse { protocol }, Ok(RedirectAction::ReadExact(RESPONSE_LEN)))
            }
            (RedirectState::AwaitingResponse { protocol }, RedirectEvent::Received(bytes)) =>
                match parse_auth_response(bytes.as_slice()) {
                    Ok(_) => (RedirectState::Done, Ok(RedirectAction::Finish { protocol })),
                    Err(e) => (RedirectState::Failed, Err(e)),
                },
            _ => (RedirectState::Failed, Err(RedirectError::OutOfOrder)),
        };
        self.state = state;
        action
    }

    /// Takes what happened and gives what to do next.
    pub fn handle(&mut self, event: RedirectEvent) -> (action: Result<RedirectAction, RedirectError>)
        ensures
            final(self).pending == old(self).pending,
            final(self).cert_pin == pin_after(
                old(self).pending@,
                old(self).state,
                event@,
                old(self).cert_pin,
            ),
            (final(self).state, action_view(action)) == handover_step(
                old(self).pending@,
                old(self).state,
                event@,
                match event@ {
                    RedirectEventView::Received(bytes) => outside_confirm(bytes),
                    _ => None,
                },
            ),
    {
        let confirm = match &event {
            RedirectEvent::Received(bytes) => decode_confirm(bytes.as_slice()),
            _ => None,
        };
        self.step(event, confirm)
    }
}

// ---------------------------------------------------------------------------
// Laws
// ---------------------------------------------------------------------------
proof fn lemma_encode_utf8_append(a: Seq<char>, b: Seq<char>)
    ensures
        encode_utf8(a + b) == encode_utf8(a) + encode_utf8(b),
    decreases a.len(),
{
    if a.len() == 0 {
        assert(a + b =~= b);
        assert(encode_utf8(a) + encode_utf8(b) =~= encode_utf8(b));
    } else {
        lemma_encode_utf8_append(a.drop_first(), b);
        assert((a + b).drop_first() =~= a.drop_first() + b);
        assert(encode_utf8(a + b) =~= encode_utf8(a) + encode_utf8(b));
    }
}

/// A routing token that came as a whole line goes out as the same line, byte for
/// byte.
pub proof fn law_routing_token_goes_out_as_it_came(value: Seq<char>, pending: PendingView)
    requires
        value.len() > 0 ==> value.last() != '\r' && value.last() != '\n',
        pending.routing_token == Some(encode_utf8("Cookie: msts="@ + value + seq!['\r', '\n'])),
    ensures
        presented_token(pending.routing_token) == Some(value),
        token_line(presented_token(pending.routing_token)) == pending.routing_token->0,
{
    let prefix = "Cookie: msts="@;
    reveal_strlit("Cookie: msts=");
    let line = prefix + value + seq!['\r', '\n'];
    vstd::utf8::encode_utf8_valid_utf8(line);
    vstd::utf8::encode_utf8_decode_utf8(line);
    let once = line.drop_last();
    let bare = once.drop_last();
    assert(once.last() == '\r');
    assert(bare =~= prefix + value);
    assert(bare.last() != '\r' && bare.last() != '\n') by {
        if value.len() > 0 {
            assert(bare.last() == value.last());
        } else {
            assert(bare.last() == '=');
        }
    }
    assert(without_line_end(bare) == bare);
    assert(without_line_end(once) == bare);
    assert(without_line_end(line) == bare);
    assert(bare.subrange(0, prefix.len() as int) =~= prefix);
    assert(occurs_at(bare, prefix, 0));
    assert(bare.skip(prefix.len() as int) =~= value);
    lemma_encode_utf8_append(prefix + value, seq!['\r', '\n']);
    lemma_encode_utf8_append(prefix, value);
    assert(encode_utf8(seq!['\r', '\n']) =~= seq![0x0Du8, 0x0A]) by {
        let end = seq!['\r', '\n'];
        assert(end.drop_first() =~= seq!['\n']);
        assert(seq!['\n'].drop_first() =~= Seq::<char>::empty());
        reveal_with_fuel(encode_utf8, 3);
        assert('\r' as u32 == 0x0D && '\n' as u32 == 0x0A);
        assert((0x0Du32 & 0x7F) as u8 == 0x0Du8) by (bit_vector);
        assert((0x0Au32 & 0x7F) as u8 == 0x0Au8) by (bit_vector);
    }
    assert(token_line(Some(value)) =~= pending.routing_token->0);
}

/// The credentials leave the client only after RDSTLS was selected, TLS stands and
/// the server has shown that it speaks version 1: there is one way to where they are
/// sent, and each of these stands on it.
pub proof fn law_credentials_wait_for_the_server(
    p: PendingView,
    state: RedirectState,
    event: RedirectEventView,
    confirm: Option<NegoConfirm>,
)
    ensures
        ({
            let next = handover_step(p, state, event, confirm).0;
            &&& next is CredentialsSent ==> state is AwaitingCapabilities && (event matches RedirectEventView::Received(
                bytes,
            ) && capabilities_result(bytes) is Ok)
            &&& next is AwaitingCapabilities ==> state is AwaitingTls && event is TlsReady
            &&& next is AwaitingTls ==> state is AwaitingConfirm && event is Received && selection(confirm) is Ok
        }),
{
}

/// A handover that has failed or finished does nothing more.
pub proof fn law_ended_handover_does_nothing(
    p: PendingView,
    state: RedirectState,
    event: RedirectEventView,
    confirm: Option<NegoConfirm>,
)
    requires
        state is Done || state is Failed,
    ensures
        handover_step(p, state, event, confirm) == (
            RedirectState::Failed,
            Err::<RedirectActionView, RedirectError>(RedirectError::OutOfOrder),
        ),
{
}

/// Whether RDSTLS is part of the protocol that a handover goes on with.
pub open spec fn rdstls_selected(state: RedirectState) -> bool {
    match state {
        RedirectState::AwaitingTls { protocol } => protocol & PROTOCOL_RDSTLS == PROTOCOL_RDSTLS,
        RedirectState::AwaitingCapabilities { protocol } => protocol & PROTOCOL_RDSTLS == PROTOCOL_RDSTLS,
        RedirectState::CredentialsSent { protocol } => protocol & PROTOCOL_RDSTLS == PROTOCOL_RDSTLS,
        RedirectState::AwaitingResponse { protocol } => protocol & PROTOCOL_RDSTLS == PROTOCOL_RDSTLS,
        _ => true,
    }
}

/// A handover goes on, and finishes, only with a protocol in which RDSTLS was selected.
pub proof fn law_finish_means_rdstls(
    p: PendingView,
    state: RedirectState,
    event: RedirectEventView,
    confirm: Option<NegoConfirm>,
)
    requires
        rdstls_selected(state),
    ensures
        rdstls_selected(RedirectState::Start),
        rdstls_selected(handover_step(p, state, event, confirm).0),
        handover_step(p, state, event, confirm).1 matches Ok(RedirectActionView::Finish { protocol }) ==> protocol
            & PROTOCOL_RDSTLS == PROTOCOL_RDSTLS,
{
}

/// The server's capabilities are a version, a type, a kind of data and the versions it speaks,
/// two bytes each, the lower first: they will do exactly where the version and the type are 1
/// and version 1 is among those spoken. Otherwise the client is told what stood there.
pub proof fn law_capabilities_must_be_version_one(data: Seq<u8>)
    ensures
        ({
            let version = data[0] + 256 * data[1];
            let kind = data[2] + 256 * data[3];
            let spoken = data[6] + 256 * data[7];
            &&& data.len() < 8 ==> capabilities_result(data) is Err
            &&& data.len() >= 8 ==> (capabilities_result(data) is Ok <==> version == 1 && kind == 1 && spoken % 2 == 1)
            &&& data.len() >= 8 && kind != 1 ==> capabilities_result(data) == Err::<(), RedirectError>(
                RedirectError::NotCapabilities(kind as u16),
            )
            &&& data.len() >= 8 && kind == 1 && (version != 1 || spoken % 2 == 0) ==> capabilities_result(data) == Err::<
                (),
                RedirectError,
            >(RedirectError::VersionUnsupported { version: version as u16, supported: spoken as u16 })
        }),
{
    if data.len() >= 8 {
        let spoken = le16_at(data, 6);
        assert(spoken & 1 == 0 <==> spoken % 2 == 0) by (bit_vector);
    }
}

/// The server's answer to the credentials is a version, a type and a kind of data, two bytes
/// each, and a code in four: the credentials are taken exactly where the type is 4 and the code
/// is 0. Otherwise the client is told the type, or the code.
pub proof fn law_answer_must_be_success(data: Seq<u8>)
    ensures
        ({
            let kind = data[2] + 256 * data[3];
            let code = data[6] + 256 * data[7] + 0x1_0000 * data[8] + 0x100_0000 * data[9];
            &&& data.len() < 10 ==> response_result(data) is Err
            &&& data.len() >= 10 && kind == 4 && code == 0 ==> response_result(data) is Ok
            &&& data.len() >= 10 && kind != 4 ==> response_result(data) == Err::<(), RedirectError>(
                RedirectError::NotResponse(kind as u16),
            )
            &&& data.len() >= 10 && kind == 4 && code != 0 ==> response_result(data) == Err::<(), RedirectError>(
                RedirectError::Denied(code as u32),
            )
        }),
{
}

/// A counted field at a place: its length in two bytes, the lower first, and its bytes.
pub open spec fn field_at(bytes: Seq<u8>, at: int, field: Seq<u8>) -> bool {
    &&& at + 2 + field.len() <= bytes.len()
    &&& bytes[at] + 256 * bytes[at + 1] == field.len()
    &&& bytes.subrange(at + 2, at + 2 + field.len()) == field
}

/// The credentials go out as they came: behind a version of 1, a type of 2 and a kind of 1, two
/// bytes each, stand the guid, the user name, the domain and the password, in this order and
/// each with its length before it, and nothing else.
pub proof fn law_credentials_go_out_as_they_came(p: PendingView)
    requires
        p.redirection_guid.len() <= 0xFFFF,
        p.user_name.len() <= 0xFFFF,
        p.domain.len() <= 0xFFFF,
        p.password.len() <= 0xFFFF,
    ensures
        ({
            let sent = credentials(p);
            let at_user = 8 + p.redirection_guid.len();
            let at_domain = at_user + 2 + p.user_name.len();
            let at_password = at_domain + 2 + p.domain.len();
            &&& sent.take(6) == seq![1u8, 0u8, 2u8, 0u8, 1u8, 0u8]
            &&& field_at(sent, 6, p.redirection_guid)
            &&& field_at(sent, at_user as int, p.user_name)
            &&& field_at(sent, at_domain as int, p.domain)
            &&& field_at(sent, at_password as int, p.password)
            &&& sent.len() == at_password + 2 + p.password.len()
        }),
{
    let sent = credentials(p);
    let at_user = 8 + p.redirection_guid.len();
    let at_domain = at_user + 2 + p.user_name.len();
    let at_password = at_domain + 2 + p.domain.len();
    assert(sent.take(6) =~= seq![1u8, 0u8, 2u8, 0u8, 1u8, 0u8]);
    assert(sent.subrange(8, at_user as int) =~= p.redirection_guid);
    assert(sent.subrange(at_user as int + 2, at_domain as int) =~= p.user_name);
    assert(sent.subrange(at_domain as int + 2, at_password as int) =~= p.domain);
    assert(sent.subrange(at_password as int + 2, sent.len() as int) =~= p.password);
}

/// A handover that nothing hinders goes its way step by step: it presents the routing token,
/// waits for the server's choice, upgrades to TLS, reads the server's capabilities of eight
/// bytes, replays the credentials, reads the answer of ten bytes and goes on with the protocol
/// that the server chose.
pub proof fn law_handover_goes_its_way(
    p: PendingView,
    confirm: Seq<u8>,
    protocol: u32,
    der: Seq<u8>,
    capabilities: Seq<u8>,
    answer: Seq<u8>,
)
    requires
        request_fits(presented_token(p.routing_token)),
        protocol & 4 == 4,
        capabilities_result(capabilities) is Ok,
        response_result(answer) is Ok,
    ensures
        ({
            let chosen = Some(NegoConfirm::Response(protocol));
            let (s1, a1) = handover_step(p, RedirectState::Start, RedirectEventView::Opened, None);
            let (s2, a2) = handover_step(p, s1, RedirectEventView::Sent, None);
            let (s3, a3) = handover_step(p, s2, RedirectEventView::Received(confirm), chosen);
            let (s4, a4) = handover_step(p, s3, RedirectEventView::TlsReady(der), None);
            let (s5, a5) = handover_step(p, s4, RedirectEventView::Received(capabilities), None);
            let (s6, a6) = handover_step(p, s5, RedirectEventView::Sent, None);
            let (s7, a7) = handover_step(p, s6, RedirectEventView::Received(answer), None);
            &&& a1 matches Ok(RedirectActionView::Send(request)) && request == request_bytes(
                presented_token(p.routing_token),
            )
            &&& a2 matches Ok(RedirectActionView::ReadX224)
            &&& a3 matches Ok(RedirectActionView::UpgradeTls)
            &&& a4 matches Ok(RedirectActionView::ReadExact(n)) && n == 8
            &&& a5 matches Ok(RedirectActionView::Send(sent)) && sent == credentials(p)
            &&& a6 matches Ok(RedirectActionView::ReadExact(n)) && n == 10
            &&& a7 matches Ok(RedirectActionView::Finish { protocol: kept }) && kept == protocol
            &&& s7 is Done
        }),
{
}

/// A server that cannot be read, refuses, or chooses anything without RDSTLS ends the handover,
/// each with its own error.
pub proof fn law_choice_must_be_rdstls(p: PendingView, bytes: Seq<u8>, protocol: u32, code: u32)
    requires
        protocol & 4 != 4,
    ensures
        ({
            let waiting = RedirectState::AwaitingConfirm;
            let event = RedirectEventView::Received(bytes);
            let unread = handover_step(p, waiting, event, None);
            let refused = handover_step(p, waiting, event, Some(NegoConfirm::Failure(code)));
            let other = handover_step(p, waiting, event, Some(NegoConfirm::Response(protocol)));
            &&& unread == (RedirectState::Failed, Err::<RedirectActionView, RedirectError>(
                RedirectError::ConfirmUnreadable,
            ))
            &&& refused == (RedirectState::Failed, Err::<RedirectActionView, RedirectError>(
                RedirectError::NegotiationFailed(code),
            ))
            &&& other == (RedirectState::Failed, Err::<RedirectActionView, RedirectError>(
                RedirectError::RdstlsNotSelected(protocol),
            ))
        }),
{
}

/// Whether a text is made of carriage returns and line feeds.
pub open spec fn line_end(text: Seq<char>) -> bool {
    forall|i: int| 0 <= i < text.len() ==> #[trigger] text[i] == '\r' || text[i] == '\n'
}

proof fn lemma_without_line_end(value: Seq<char>, end: Seq<char>)
    requires
        line_end(end),
        value.len() > 0 ==> value.last() != '\r' && value.last() != '\n',
    ensures
        without_line_end(value + end) == value,
    decreases end.len(),
{
    let all = value + end;
    if end.len() > 0 {
        assert(all.last() == end[end.len() - 1]);
        assert(all.drop_last() =~= value + end.drop_last());
        assert forall|i: int| 0 <= i < end.drop_last().len() implies #[trigger] end.drop_last()[i] == '\r'
            || end.drop_last()[i] == '\n' by {
            assert(end.drop_last()[i] == end[i]);
        }
        lemma_without_line_end(value, end.drop_last());
    } else {
        assert(all =~= value);
    }
}

/// The value of a routing token is what is left of its line without the prefix, if it has one,
/// and without the end of the line, whatever that is made of.
pub proof fn law_token_value_is_what_is_left(value: Seq<char>, end: Seq<char>)
    requires
        line_end(end),
        value.len() > 0 ==> value.last() != '\r' && value.last() != '\n',
    ensures
        token_value("Cookie: msts="@ + value + end) == value,
        !occurs_at(value, "Cookie: msts="@, 0) ==> token_value(value + end) == value,
{
    let prefix = "Cookie: msts="@;
    reveal_strlit("Cookie: msts=");
    let bare = prefix + value;
    assert(bare.len() > 0);
    assert(bare.last() != '\r' && bare.last() != '\n') by {
        if value.len() > 0 {
            assert(bare.last() == value.last());
        } else {
            assert(bare.last() == '=');
        }
    }
    lemma_without_line_end(bare, end);
    lemma_without_line_end(value, end);
    assert(bare.subrange(0, prefix.len() as int) =~= prefix);
    assert(occurs_at(bare, prefix, 0));
    assert(bare.skip(prefix.len() as int) =~= value);
}

/// The presented certificate matches exactly where the packet's container holds it whole and in
/// one piece, with anything before and behind it; an empty one matches nothing.
pub proof fn law_pin_matches_what_is_held(before: Seq<u8>, presented: Seq<u8>, after: Seq<u8>, container: Seq<u8>)
    ensures
        presented.len() > 0 ==> pin_of(Some(before + presented + after), presented) == CertPin::Matches,
        pin_of(Some(container), presented) == CertPin::Matches ==> presented.len() > 0 && exists|at: int|
            0 <= at <= container.len() && container == #[trigger] container.take(at) + presented + container.skip(
                at + presented.len(),
            ),
        pin_of(Some(container), presented) != CertPin::Matches ==> pin_of(Some(container), presented)
            == CertPin::Mismatch,
        pin_of(None, presented) == CertPin::Undecodable,
        pin_result(None, presented) == CertPin::NotGiven,
{
    let all = before + presented + after;
    let place = before.len() as int;
    if presented.len() > 0 {
        assert(all.subrange(place, place + presented.len()) =~= presented);
    }
    if pin_of(Some(container), presented) == CertPin::Matches {
        let at = choose|at: int|
            0 <= at <= container.len() - presented.len() && #[trigger] container.subrange(at, at + presented.len())
                == presented;
        assert(container =~= container.take(at) + container.subrange(at, at + presented.len()) + container.skip(
            at + presented.len(),
        ));
    }
}

/// The certificate in the packet is a text in UTF-16 that ends at a zero unit, with white space
/// around it that does not count.
pub proof fn law_certificate_text_is_read(text: Seq<char>, after: Seq<u16>)
    requires
        forall|i: int| 0 <= i < text.len() ==> text[i] != '\0',
    ensures
        certificate_text(crate::utf16::bytes_of(crate::utf16::encode(text) + seq![0u16] + after)) == trimmed(text),
{
    crate::utf16::law_units_of_bytes(crate::utf16::encode(text) + seq![0u16] + after);
    crate::utf16::law_terminated_round_trip(text, after);
}

/// What the user is told of a refusal ends in its code, in eight hexadecimal digits from the
/// highest down: the code can be read back from them.
pub proof fn law_refusal_shows_its_code(code: u32)
    ensures
        ({
            let bytes = be32_bytes(code);
            let told = denial_text(code);
            let digits = told.subrange(told.len() - 9, told.len() - 1);
            &&& told.last() == ')'
            &&& crate::tls::hex_value(digits) == Ok::<Seq<u8>, crate::tls::HexError>(bytes)
            &&& bytes.len() == 4
            &&& 0x100_0000 * bytes[0] + 0x1_0000 * bytes[1] + 0x100 * bytes[2] + bytes[3] == code
        }),
{
    let bytes = be32_bytes(code);
    let hex = hex_text(bytes);
    let told = denial_text(code);
    reveal_strlit(")");
    crate::tls::law_hex_round_trip(bytes);
    crate::tls::law_hex_length(bytes);
    assert(told.subrange(told.len() - 9, told.len() - 1) =~= hex);
}

/// Each code of a refusal that is known has its own text, and every other code is unknown.
pub proof fn law_known_refusals_have_their_texts(code: u32)
    ensures
        ({
            let known = code == 5 || code == 1326 || code == 1328 || code == 1330 || code == 1331 || code == 1907 || code
                == 1909;
            &&& !known ==> result_text(code) == "unknown error"@
            &&& code == 5 ==> result_text(code) == "access denied"@
            &&& code == 1326 ==> result_text(code) == "logon failure (unknown username or bad password)"@
            &&& code == 1328 ==> result_text(code) == "invalid logon hours"@
            &&& code == 1330 ==> result_text(code) == "password expired"@
            &&& code == 1331 ==> result_text(code) == "account disabled"@
            &&& code == 1907 ==> result_text(code) == "password must change"@
            &&& code == 1909 ==> result_text(code) == "account locked out"@
        }),
{
}

} // verus!
