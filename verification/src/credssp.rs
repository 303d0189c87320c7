//! Network level authentication.
//!
//! Client and server exchange authentication messages until the client sends its last
//! one; where the server has asked for it, a verdict follows. What the messages hold is
//! decided by the `sspi` crate.

use sspi::credssp::{ClientMode, ClientState, CredSspClient, CredSspMode, TsRequest};
use sspi::generator::GeneratorState;
use vstd::prelude::*;
use vstd::utf8::encode_utf8;

use crate::text::{chars_of, is_empty_text, matches_at, occurs_at, string_of};
use crate::tls::{cuts_cleanly, hex_decodable};
use crate::utf16::utf16_len_within;

verus! {

/// After how many rounds no further one is begun.
pub const MAX_ROUNDS: u32 = 10;

/// The length of the server's verdict.
pub const VERDICT_LEN: usize = 4;

/// The service that the client authenticates to.
pub const SERVICE_NAME: &'static str = "TERMSRV/localhost";

/// The length of the signature that an echo of the server's key begins with.
pub const SIGNATURE_LEN: usize = 16;

/// How many messages the client has been given when it reads the echo of the server's key
/// in the next one: the empty message and the server's challenge.
pub const ECHO_ROUND: u32 = 2;

/// How long a message may be: its lengths have 16 bits.
pub const MAX_LENGTH: usize = 0xFFFF;

/// How many bytes a user's names and password may take in UTF-16: they are sent in one
/// field of a message, where tags and lengths take up to 45 bytes more.
pub const CREDENTIALS_ROOM: usize = 0xFFFF - 45;

/// How a password begins that is the hash of one, in hexadecimal.
pub const HASH_PREFIX: &'static str = "$NTLM$:";

/// Why the authentication fails.
#[derive(Debug, PartialEq, Eq)]
pub enum CredsspError {
    InvalidUsername,
    InitFailed,
    /// A message could not be made; the text says why.
    ProcessFailed(String),
    /// The client would have to ask another server, as for Kerberos.
    NetworkRequest,
    /// An answer could not be written, or is too long for a message.
    EncodeFailed,
    /// The server's message cannot be read, or its echo of the key is no echo.
    DecodeFailed,
    TooManyRounds,
    Denied(Vec<u8>),
    OutOfOrder,
}

/// What comes of processing a message.
#[derive(Debug, PartialEq, Eq)]
pub enum CredsspReply {
    Reply(Vec<u8>),
    Final(Vec<u8>),
    Failed(String),
    NetworkRequest,
    NotEncoded,
}

/// What an exchange waits for.
#[derive(Debug, Clone, Copy, PartialEq, Eq)]
pub enum CredsspState {
    Start,
    Processing,
    ReplySent,
    AwaitingMessage,
    FinalSent,
    AwaitingVerdict,
    Done,
    Failed,
}

/// What happened.
#[derive(Debug, PartialEq, Eq)]
pub enum CredsspEvent {
    Begin,
    Processed(CredsspReply),
    Sent,
    Received(Vec<u8>),
}

/// What is to be done next.
#[derive(Debug, PartialEq, Eq)]
pub enum CredsspAction {
    /// Process a message of the server; none for the first time.
    Process(Option<Vec<u8>>),
    Send(Vec<u8>),
    /// Read one authentication message.
    ReadMessage,
    /// Read that many bytes.
    ReadExact(usize),
    Finish,
}

/// An exchange, without the client that makes the messages.
#[derive(Debug, Clone, Copy, PartialEq, Eq)]
pub struct CredsspExchange {
    pub round: u32,
    /// Whether a verdict follows the last message.
    pub hybrid_ex: bool,
    pub state: CredsspState,
}

/// One step of an exchange. `readable` says whether a received message can be read.
pub open spec fn exchange_step(x: CredsspExchange, event: CredsspEvent, readable: bool) -> (
    CredsspExchange,
    Result<CredsspAction, CredsspError>,
) {
    let failed = CredsspExchange { state: CredsspState::Failed, ..x };
    match (x.state, event) {
        (CredsspState::Start, CredsspEvent::Begin) => (
            CredsspExchange { round: 1, state: CredsspState::Processing, ..x },
            Ok(CredsspAction::Process(None)),
        ),
        (CredsspState::Processing, CredsspEvent::Processed(reply)) => match reply {
            CredsspReply::Reply(bytes) => (
                CredsspExchange { state: CredsspState::ReplySent, ..x },
                Ok(CredsspAction::Send(bytes)),
            ),
            CredsspReply::Final(bytes) => (
                CredsspExchange { state: CredsspState::FinalSent, ..x },
                Ok(CredsspAction::Send(bytes)),
            ),
            CredsspReply::Failed(text) => (failed, Err(CredsspError::ProcessFailed(text))),
            CredsspReply::NetworkRequest => (failed, Err(CredsspError::NetworkRequest)),
            CredsspReply::NotEncoded => (failed, Err(CredsspError::EncodeFailed)),
        },
        (CredsspState::ReplySent, CredsspEvent::Sent) => (
            CredsspExchange { state: CredsspState::AwaitingMessage, ..x },
            Ok(CredsspAction::ReadMessage),
        ),
        (CredsspState::AwaitingMessage, CredsspEvent::Received(bytes)) => if !readable {
            (failed, Err(CredsspError::DecodeFailed))
        } else if x.round > MAX_ROUNDS {
            (failed, Err(CredsspError::TooManyRounds))
        } else {
            (
                CredsspExchange { round: (x.round + 1) as u32, state: CredsspState::Processing, ..x },
                Ok(CredsspAction::Process(Some(bytes))),
            )
        },
        (CredsspState::FinalSent, CredsspEvent::Sent) => if x.hybrid_ex {
            (
                CredsspExchange { state: CredsspState::AwaitingVerdict, ..x },
                Ok(CredsspAction::ReadExact(VERDICT_LEN)),
            )
        } else {
            (CredsspExchange { state: CredsspState::Done, ..x }, Ok(CredsspAction::Finish))
        },
        (CredsspState::AwaitingVerdict, CredsspEvent::Received(bytes)) => if bytes@ == seq![0u8, 0u8, 0u8, 0u8] {
            (CredsspExchange { state: CredsspState::Done, ..x }, Ok(CredsspAction::Finish))
        } else {
            (failed, Err(CredsspError::Denied(bytes)))
        },
        _ => (failed, Err(CredsspError::OutOfOrder)),
    }
}

fn is_zero(bytes: &Vec<u8>) -> (zero: bool)
    ensures
        zero == (bytes@ == seq![0u8, 0u8, 0u8, 0u8]),
{
    let zero = bytes.len() == 4 && bytes[0] == 0 && bytes[1] == 0 && bytes[2] == 0 && bytes[3] == 0;
    proof {
        if zero {
            assert(bytes@ =~= seq![0u8, 0u8, 0u8, 0u8]);
        }
    }
    zero
}

impl CredsspExchange {
    pub fn new(hybrid_ex: bool) -> (exchange: Self)
        ensures
            exchange == (CredsspExchange { round: 0, hybrid_ex, state: CredsspState::Start }),
    {
        CredsspExchange { round: 0, hybrid_ex, state: CredsspState::Start }
    }

    /// Takes what happened and gives what to do next, where it is known whether a
    /// received message can be read.
    pub fn step(&mut self, event: CredsspEvent, readable: bool) -> (action: Result<CredsspAction, CredsspError>)
        ensures
            (*final(self), action) == exchange_step(*old(self), event, readable),
    {
        match (self.state, event) {
            (CredsspState::Start, CredsspEvent::Begin) => {
                self.round = 1;
                self.state = CredsspState::Processing;
                Ok(CredsspAction::Process(None))
            }
            (CredsspState::Processing, CredsspEvent::Processed(reply)) => match reply {
                CredsspReply::Reply(bytes) => {
                    self.state = CredsspState::ReplySent;
                    Ok(CredsspAction::Send(bytes))
                }
                CredsspReply::Final(bytes) => {
                    self.state = CredsspState::FinalSent;
                    Ok(CredsspAction::Send(bytes))
                }
                CredsspReply::Failed(text) => {
                    self.state = CredsspState::Failed;
                    Err(CredsspError::ProcessFailed(text))
                }
                CredsspReply::NetworkRequest => {
                    self.state = CredsspState::Failed;
                    Err(CredsspError::NetworkRequest)
                }
                CredsspReply::NotEncoded => {
                    self.state = CredsspState::Failed;
                    Err(CredsspError::EncodeFailed)
                }
            },
            (CredsspState::ReplySent, CredsspEvent::Sent) => {
                self.state = CredsspState::AwaitingMessage;
                Ok(CredsspAction::ReadMessage)
            }
            (CredsspState::AwaitingMessage, CredsspEvent::Received(bytes)) => {
                if !readable {
                    self.state = CredsspState::Failed;
                    Err(CredsspError::DecodeFailed)
                } else if self.round > MAX_ROUNDS {
                    self.state = CredsspState::Failed;
                    Err(CredsspError::TooManyRounds)
                } else {
                    self.round = self.round + 1;
                    self.state = CredsspState::Processing;
                    Ok(CredsspAction::Process(Some(bytes)))
                }
            }
            (CredsspState::FinalSent, CredsspEvent::Sent) => {
                if self.hybrid_ex {
                    self.state = CredsspState::AwaitingVerdict;
                    Ok(CredsspAction::ReadExact(VERDICT_LEN))
                } else {
                    self.state = CredsspState::Done;
                    Ok(CredsspAction::Finish)
                }
            }
            (CredsspState::AwaitingVerdict, CredsspEvent::Received(bytes)) => {
                if is_zero(&bytes) {
                    self.state = CredsspState::Done;
                    Ok(CredsspAction::Finish)
                } else {
                    self.state = CredsspState::Failed;
                    Err(CredsspError::Denied(bytes))
                }
            }
            _ => {
                self.state = CredsspState::Failed;
                Err(CredsspError::OutOfOrder)
            }
        }
    }
}

// ---------------------------------------------------------------------------
// The client
// ---------------------------------------------------------------------------
#[verifier::external_type_specification]
#[verifier::external_body]
pub struct ExCredSspClient(CredSspClient);

/// Whether a name holds a character.
pub open spec fn holds_char(name: Seq<char>, c: char) -> bool {
    exists|i: int| 0 <= i < name.len() && name[i] == c
}

/// How many backslashes a name holds.
pub open spec fn backslashes(name: Seq<char>) -> nat {
    name.filter(|c: char| c == '\\').len()
}

/// Whether a name holds neither a backslash nor an at sign.
pub open spec fn plain_name(name: Seq<char>) -> bool {
    !holds_char(name, '\\') && !holds_char(name, '@')
}

/// Whether an account can be named: with a domain both names must be plain; without one
/// the account may be written with an at sign, or with one backslash and no at sign.
pub open spec fn nameable(username: Seq<char>, domain: Option<Seq<char>>) -> bool {
    match domain {
        Some(d) => if d.len() > 0 {
            plain_name(username) && plain_name(d)
        } else {
            nameable_alone(username)
        },
        None => nameable_alone(username),
    }
}

/// Whether an account can be named without a domain.
pub open spec fn nameable_alone(username: Seq<char>) -> bool {
    backslashes(username) == 0 || (backslashes(username) == 1 && !holds_char(username, '@'))
}

/// The domain to hand on: an empty one is none.
pub open spec fn domain_of(domain: Seq<char>) -> Option<Seq<char>> {
    if domain.len() == 0 {
        None
    } else {
        Some(domain)
    }
}

/// A text, as a value.
pub open spec fn text_view(text: Option<&str>) -> Option<Seq<char>> {
    match text {
        Some(t) => Some(t@),
        None => None,
    }
}

/// How many bytes a text takes in UTF-16.
pub open spec fn utf16_size(text: Seq<char>) -> nat {
    2 * crate::utf16::encode(text).len()
}

/// Whether a password that begins as a hash does can be looked at two bytes at a time: one
/// with 32 bytes behind the beginning is, up to the first two that are no digits.
pub open spec fn hash_readable(password: Seq<char>) -> bool {
    let hash = password.skip(HASH_PREFIX@.len() as int);
    occurs_at(password, HASH_PREFIX@, 0) && encode_utf8(hash).len() == 32 ==> cuts_cleanly(hash)
}

/// Whether credentials can be sent: they fit in a message, and the password can be looked
/// at.
pub open spec fn usable(username: Seq<char>, domain: Option<Seq<char>>, password: Seq<char>) -> bool {
    let domain_size = match domain {
        Some(d) => utf16_size(d),
        None => 0,
    };
    &&& utf16_size(username) + utf16_size(password) + domain_size <= CREDENTIALS_ROOM
    &&& hash_readable(password)
}

// ---------------------------------------------------------------------------
// Messages
// ---------------------------------------------------------------------------
#[verifier::external_type_specification]
#[verifier::external_body]
pub struct ExTsRequest(TsRequest);

/// What an authentication message holds.
pub struct AuthMessage {
    pub version: u32,
    pub nego_tokens: Option<Seq<u8>>,
    pub auth_info: Option<Seq<u8>>,
    /// The echo of the server's key.
    pub pub_key_auth: Option<Seq<u8>>,
    pub error_code: Option<u32>,
    pub client_nonce: Option<Seq<u8>>,
}

/// The empty message.
pub open spec fn empty_message() -> AuthMessage {
    AuthMessage {
        version: 6,
        nego_tokens: None,
        auth_info: None,
        pub_key_auth: None,
        error_code: None,
        client_nonce: None,
    }
}

/// What the fields of a `sspi::credssp::TsRequest` hold.
pub uninterp spec fn message_of(request: TsRequest) -> AuthMessage;

/// The message that `sspi::credssp::TsRequest::from_buffer` reads; `None` where the bytes
/// are no message.
pub uninterp spec fn message_in(bytes: Seq<u8>) -> Option<AuthMessage>;

/// The bytes that `sspi::credssp::TsRequest::encode_ts_request` writes for a message; `None`
/// where it gives an error.
pub uninterp spec fn message_bytes(message: AuthMessage) -> Option<Seq<u8>>;

/// `sspi::credssp::TsRequest::from_buffer`. Claimed: what it reads depends on the bytes
/// alone.
#[verifier::external_body]
fn read_request(bytes: &[u8]) -> (request: Option<TsRequest>)
    ensures
        match request {
            Some(r) => message_in(bytes@) == Some(message_of(r)),
            None => message_in(bytes@) is None,
        },
{
    TsRequest::from_buffer(bytes).ok()
}

/// `sspi::credssp::TsRequest::default`: the empty message.
#[verifier::external_body]
fn empty_request() -> (request: TsRequest)
    ensures
        message_of(request) == empty_message(),
{
    TsRequest::default()
}

/// How long the fields of a message are.
pub struct MessageSizes {
    pub version: u32,
    pub nego_tokens: Option<usize>,
    pub auth_info: Option<usize>,
    pub pub_key_auth: Option<usize>,
    pub error_code: Option<u32>,
    pub client_nonce: bool,
}

/// Whether a field is as long as a size says, and there just where the size is.
pub open spec fn has_size(field: Option<Seq<u8>>, size: Option<usize>) -> bool {
    match field {
        Some(bytes) => size is Some && size->0 == bytes.len(),
        None => size is None,
    }
}

impl MessageSizes {
    /// Whether these are the sizes of a message.
    pub open spec fn are_of(self, message: AuthMessage) -> bool {
        &&& self.version == message.version
        &&& has_size(message.nego_tokens, self.nego_tokens)
        &&& has_size(message.auth_info, self.auth_info)
        &&& has_size(message.pub_key_auth, self.pub_key_auth)
        &&& self.error_code == message.error_code
        &&& self.client_nonce == message.client_nonce is Some
    }
}

/// The public fields of a `sspi::credssp::TsRequest`, the longer ones by their lengths.
#[verifier::external_body]
fn sizes_of(request: &TsRequest) -> (sizes: MessageSizes)
    ensures
        sizes.are_of(message_of(*request)),
{
    MessageSizes {
        version: request.version,
        nego_tokens: request.nego_tokens.as_ref().map(Vec::len),
        auth_info: request.auth_info.as_ref().map(Vec::len),
        pub_key_auth: request.pub_key_auth.as_ref().map(Vec::len),
        error_code: request.error_code.map(|code| code.0),
        client_nonce: request.client_nonce.is_some(),
    }
}

/// How many bytes a value of `n` bytes takes with its tag and its length.
pub open spec fn tagged(n: int) -> int {
    if n > 0xFF {
        n + 4
    } else if n > 0x7F {
        n + 3
    } else {
        n + 2
    }
}

/// How many bytes a value of `n` bytes takes with as many tags and lengths around it.
pub open spec fn wrapped(n: int, tags: nat) -> int
    decreases tags,
{
    if tags == 0 {
        n
    } else {
        tagged(wrapped(n, (tags - 1) as nat))
    }
}

/// How many bytes a field takes, if it is there.
pub open spec fn field_size(field: Option<Seq<u8>>, tags: nat) -> int {
    match field {
        Some(bytes) => wrapped(bytes.len() as int, tags),
        None => 0,
    }
}

/// How many bytes an error code takes. Version 5 counts none.
pub open spec fn error_size(version: u32, code: Option<u32>) -> int {
    match code {
        Some(c) => if version < 3 || version == 5 {
            0
        } else if c < 0x80 {
            5
        } else if c < 0x8000 {
            6
        } else if c < 0x80_0000 {
            7
        } else {
            8
        },
        None => 0,
    }
}

/// How many bytes the fields of a message take: each with its tag and length, the tokens
/// with five, and the version with five bytes in all.
pub open spec fn message_size(message: AuthMessage) -> int {
    field_size(message.nego_tokens, 5) + field_size(message.pub_key_auth, 2) + field_size(message.auth_info, 2) + (
    if message.client_nonce is Some && message.version >= 5 {
        36int
    } else {
        0
    }) + error_size(message.version, message.error_code) + 5
}

/// `sspi::credssp::TsRequest::encode_ts_request` to a run of bytes. It adds lengths in 16
/// bits without looking, so the message must fit. Claimed: the bytes depend on what the
/// message holds alone.
#[verifier::external_body]
fn write_request(request: &TsRequest) -> (bytes: Option<Vec<u8>>)
    requires
        message_size(message_of(*request)) <= MAX_LENGTH,
    ensures
        match bytes {
            Some(b) => message_bytes(message_of(*request)) == Some(b@),
            None => message_bytes(message_of(*request)) is None,
        },
{
    let mut bytes = Vec::new();
    request.encode_ts_request(&mut bytes).ok()?;
    Some(bytes)
}

proof fn lemma_wrapped(n: int, tags: nat)
    requires
        0 <= n,
    ensures
        n <= wrapped(n, tags) <= n + 4 * tags,
    decreases tags,
{
    if tags > 0 {
        lemma_wrapped(n, (tags - 1) as nat);
    }
}

/// The bytes of a field with its tags; `None` where there are too many for a message.
fn measure(size: Option<usize>, tags: u32) -> (bytes: Option<u32>)
    requires
        tags <= 5,
    ensures
        match size {
            Some(n) => bytes == if n <= MAX_LENGTH {
                Some(wrapped(n as int, tags as nat) as u32)
            } else {
                None::<u32>
            },
            None => bytes == Some(0u32),
        },
        bytes is Some ==> bytes->0 <= MAX_LENGTH + 20,
        bytes is None ==> size is Some && wrapped(size->0 as int, tags as nat) > MAX_LENGTH,
{
    let n: usize = match size {
        Some(n) => n,
        None => return Some(0),
    };
    proof {
        lemma_wrapped(n as int, tags as nat);
    }
    if n > MAX_LENGTH {
        return None;
    }
    let mut len: u32 = n as u32;
    let mut done: u32 = 0;
    while done < tags
        invariant
            done <= tags <= 5,
            n <= MAX_LENGTH,
            len == wrapped(n as int, done as nat),
            len <= MAX_LENGTH + 4 * done,
        decreases tags - done,
    {
        len = if len > 0xFF {
            len + 4
        } else if len > 0x7F {
            len + 3
        } else {
            len + 2
        };
        done = done + 1;
    }
    Some(len)
}

/// Whether a message with such sizes fits.
fn fits(sizes: &MessageSizes) -> (fits: bool)
    ensures
        forall|message: AuthMessage| #[trigger]
            sizes.are_of(message) ==> fits == (message_size(message) <= MAX_LENGTH),
{
    proof {
        assert forall|message: AuthMessage| #[trigger] sizes.are_of(message) implies {
            &&& field_size(message.nego_tokens, 5) >= 0
            &&& field_size(message.pub_key_auth, 2) >= 0
            &&& field_size(message.auth_info, 2) >= 0
        } by {
            match message.nego_tokens {
                Some(bytes) => lemma_wrapped(bytes.len() as int, 5),
                None => {},
            }
            match message.pub_key_auth {
                Some(bytes) => lemma_wrapped(bytes.len() as int, 2),
                None => {},
            }
            match message.auth_info {
                Some(bytes) => lemma_wrapped(bytes.len() as int, 2),
                None => {},
            }
        }
    }
    let tokens: u32 = match measure(sizes.nego_tokens, 5) {
        Some(len) => len,
        None => return false,
    };
    let echo: u32 = match measure(sizes.pub_key_auth, 2) {
        Some(len) => len,
        None => return false,
    };
    let info: u32 = match measure(sizes.auth_info, 2) {
        Some(len) => len,
        None => return false,
    };
    proof {
        if sizes.nego_tokens is Some {
            lemma_wrapped(sizes.nego_tokens->0 as int, 5);
        }
        if sizes.pub_key_auth is Some {
            lemma_wrapped(sizes.pub_key_auth->0 as int, 2);
        }
        if sizes.auth_info is Some {
            lemma_wrapped(sizes.auth_info->0 as int, 2);
        }
    }
    let nonce: u32 = if sizes.client_nonce && sizes.version >= 5 {
        36
    } else {
        0
    };
    let error: u32 = match sizes.error_code {
        Some(code) => if sizes.version < 3 || sizes.version == 5 {
            0
        } else if code < 0x80 {
            5
        } else if code < 0x8000 {
            6
        } else if code < 0x80_0000 {
            7
        } else {
            8
        },
        None => 0,
    };
    tokens + echo + info + nonce + error + 5 <= MAX_LENGTH as u32
}

/// The bytes of a message; `None` where it is too long, or cannot be written.
pub open spec fn sent_bytes(message: AuthMessage) -> Option<Seq<u8>> {
    if message_size(message) <= MAX_LENGTH {
        message_bytes(message)
    } else {
        None
    }
}

fn bytes_to_send(request: &TsRequest) -> (bytes: Option<Vec<u8>>)
    ensures
        match bytes {
            Some(b) => sent_bytes(message_of(*request)) == Some(b@),
            None => sent_bytes(message_of(*request)) is None,
        },
{
    if fits(&sizes_of(request)) {
        write_request(request)
    } else {
        None
    }
}

// ---------------------------------------------------------------------------
// The authentication
// ---------------------------------------------------------------------------
/// What a client was made for: the server's key, a username, its domain, a password and a
/// service.
pub uninterp spec fn made_for(client: CredSspClient) -> (
    Seq<u8>,
    Seq<char>,
    Option<Seq<char>>,
    Seq<char>,
    Seq<char>,
);

/// The messages that a client has been given.
pub uninterp spec fn heard(client: CredSspClient) -> Seq<AuthMessage>;

/// What a client answers to a message.
pub enum ClientAnswer {
    Reply(TsRequest),
    Final(TsRequest),
    Failed(String),
    NetworkRequest,
}

/// What a client has answered to the messages that it has been given.
pub uninterp spec fn answers(client: CredSspClient) -> Seq<ClientAnswer>;

/// Whether a client has failed: it has lost its credentials and must not go on.
pub uninterp spec fn broken(client: CredSspClient) -> bool;

/// Whether a client was made for credentials that can be sent.
pub open spec fn made_usable(client: CredSspClient) -> bool {
    let (_, username, domain, password, _) = made_for(client);
    usable(username, domain, password)
}

/// `sspi::Username::new`, then `sspi::credssp::CredSspClient::new` for NTLM with the
/// user's credentials. Claimed: the username is refused just where it is not
/// [`nameable`]; a client is made for all of the arguments, has been given no message and
/// has not failed. The client draws a random number, and where there is none to be had it
/// is not made; when that is so is left unsaid.
#[verifier::external_body]
fn new_client(public_key: &[u8], username: &str, domain: Option<&str>, password: &str, service: &str) -> (client: Result<
    CredSspClient,
    CredsspError,
>)
    ensures
        (client matches Err(e) && e is InvalidUsername) == !nameable(username@, text_view(domain)),
        client matches Err(e) ==> e is InvalidUsername || e is InitFailed,
        client matches Ok(c) ==> made_for(c) == (public_key@, username@, text_view(domain), password@, service@),
        client matches Ok(c) ==> heard(c).len() == 0 && answers(c).len() == 0 && !broken(c),
{
    let username = sspi::Username::new(username, domain).map_err(|_| CredsspError::InvalidUsername)?;
    let identity = sspi::AuthIdentity { username, password: password.to_owned().into() };
    CredSspClient::new(
        public_key.to_vec(),
        sspi::Credentials::AuthIdentity(identity),
        CredSspMode::WithCredentials,
        ClientMode::Ntlm(sspi::ntlm::NtlmConfig::default()),
        service.to_owned(),
    ).map_err(|_| CredsspError::InitFailed)
}

/// Whether the echo of the server's key in a message holds its signature, if it is there.
pub open spec fn echo_sound(message: AuthMessage) -> bool {
    match message.pub_key_auth {
        Some(echo) => echo.len() >= SIGNATURE_LEN,
        None => true,
    }
}

/// `sspi::credssp::CredSspClient::process` for NTLM. With the third message it splits the
/// key echo behind its signature without looking; it adds the credentials' lengths in 16
/// bits, cuts a password that is a hash every two bytes, and expects the credentials that a
/// failed client has lost. [`echo_sound`], [`usable`] and [`broken`] leave those cases out.
/// Claimed: the client is still made for the same, has now been given the message and has
/// answered it so; where it answers with a message, it has not failed. The answer depends
/// on random numbers; what it holds is left unsaid.
#[verifier::external_body]
fn process(client: &mut CredSspClient, request: TsRequest) -> (answer: ClientAnswer)
    requires
        !broken(*old(client)),
        made_usable(*old(client)),
        heard(*old(client)).len() == ECHO_ROUND ==> echo_sound(message_of(request)),
    ensures
        made_for(*final(client)) == made_for(*old(client)),
        heard(*final(client)) == heard(*old(client)).push(message_of(request)),
        answers(*final(client)) == answers(*old(client)).push(answer),
        answer is Reply || answer is Final ==> !broken(*final(client)),
{
    match client.process(request).start() {
        GeneratorState::Completed(Ok(ClientState::ReplyNeeded(reply))) => ClientAnswer::Reply(reply),
        GeneratorState::Completed(Ok(ClientState::FinalMessage(last))) => ClientAnswer::Final(last),
        GeneratorState::Completed(Err(e)) => ClientAnswer::Failed(e.to_string()),
        GeneratorState::Suspended(_) => ClientAnswer::NetworkRequest,
    }
}

/// Whether a reply is what an answer of the client comes to.
pub open spec fn is_reply_of(answer: ClientAnswer, reply: CredsspReply) -> bool {
    match answer {
        ClientAnswer::Reply(request) => match sent_bytes(message_of(request)) {
            Some(bytes) => reply matches CredsspReply::Reply(b) && b@ == bytes,
            None => reply is NotEncoded,
        },
        ClientAnswer::Final(request) => match sent_bytes(message_of(request)) {
            Some(bytes) => reply matches CredsspReply::Final(b) && b@ == bytes,
            None => reply is NotEncoded,
        },
        ClientAnswer::Failed(text) => reply == CredsspReply::Failed(text),
        ClientAnswer::NetworkRequest => reply is NetworkRequest,
    }
}

/// What an answer of the client comes to.
pub fn reply_of(answer: ClientAnswer) -> (reply: CredsspReply)
    ensures
        is_reply_of(answer, reply),
{
    match answer {
        ClientAnswer::Reply(request) => match bytes_to_send(&request) {
            Some(bytes) => CredsspReply::Reply(bytes),
            None => CredsspReply::NotEncoded,
        },
        ClientAnswer::Final(request) => match bytes_to_send(&request) {
            Some(bytes) => CredsspReply::Final(bytes),
            None => CredsspReply::NotEncoded,
        },
        ClientAnswer::Failed(text) => CredsspReply::Failed(text),
        ClientAnswer::NetworkRequest => CredsspReply::NetworkRequest,
    }
}

fn is_hash_readable(password: &str) -> (readable: bool)
    ensures
        readable == hash_readable(password@),
{
    let chars = chars_of(password);
    let prefix = chars_of(HASH_PREFIX);
    if !matches_at(&chars, &prefix, 0) {
        return true;
    }
    let hash = string_of(&chars, prefix.len(), chars.len());
    assert(hash@ =~= password@.skip(HASH_PREFIX@.len() as int));
    hash.as_str().as_bytes().len() != 32 || hex_decodable(hash.as_str())
}

/// Whether credentials can be used in an authentication.
pub fn credentials_usable(username: &str, password: &str, domain: &str) -> (can: bool)
    ensures
        can == usable(username@, domain_of(domain@), password@),
{
    proof {
        if domain@.len() == 0 {
            assert(crate::utf16::encode(domain@).len() == 0);
        }
    }
    let room: usize = CREDENTIALS_ROOM;
    let room: usize = match utf16_len_within(username, room) {
        Some(len) => room - len,
        None => return false,
    };
    let room: usize = match utf16_len_within(password, room) {
        Some(len) => room - len,
        None => return false,
    };
    utf16_len_within(domain, room).is_some() && is_hash_readable(password)
}

/// An authentication in progress.
pub struct CredsspSession {
    pub client: CredSspClient,
    pub exchange: CredsspExchange,
}

/// Whether the message in an event can be read, and processed in the round that follows.
pub open spec fn event_readable(round: u32, event: CredsspEvent) -> bool {
    match event {
        CredsspEvent::Received(bytes) => match message_in(bytes@) {
            Some(message) => round == ECHO_ROUND ==> echo_sound(message),
            None => false,
        },
        _ => false,
    }
}

/// The message that an action hands to the client.
pub open spec fn request_message(request: Option<Vec<u8>>) -> AuthMessage {
    match request {
        Some(bytes) => message_in(bytes@)->0,
        None => empty_message(),
    }
}

/// What an event leads to once a message that is to be processed has been: `reply` is
/// what came of it.
pub open spec fn session_step(x: CredsspExchange, event: CredsspEvent, readable: bool, reply: CredsspReply) -> (
    CredsspExchange,
    Result<CredsspAction, CredsspError>,
) {
    let (next, action) = exchange_step(x, event, readable);
    match action {
        Ok(CredsspAction::Process(_)) => exchange_step(next, CredsspEvent::Processed(reply), false),
        _ => (next, action),
    }
}

impl CredsspSession {
    /// The client's credentials can be used, it has been given a message in each round, and
    /// one that has failed is given nothing more.
    pub open spec fn valid(self) -> bool {
        &&& made_usable(self.client)
        &&& self.exchange.state == CredsspState::Start ==> self.exchange.round == 0
        &&& self.exchange.state != CredsspState::Failed ==> heard(self.client).len() == self.exchange.round
        &&& broken(self.client) ==> self.exchange.state == CredsspState::Failed
    }

    /// Prepares an authentication with a user's credentials against the key of the
    /// server's certificate.
    pub fn new(
        server_public_key: &[u8],
        username: &str,
        password: &str,
        domain: &str,
        hybrid_ex: bool,
    ) -> (session: Result<Self, CredsspError>)
        requires
            usable(username@, domain_of(domain@), password@),
        ensures
            match session {
                Ok(s) => {
                    &&& nameable(username@, domain_of(domain@))
                    &&& s.exchange == (CredsspExchange { round: 0, hybrid_ex, state: CredsspState::Start })
                    &&& made_for(s.client) == (
                        server_public_key@,
                        username@,
                        domain_of(domain@),
                        password@,
                        SERVICE_NAME@,
                    )
                    &&& heard(s.client).len() == 0
                    &&& answers(s.client).len() == 0
                    &&& s.valid()
                },
                Err(CredsspError::InvalidUsername) => !nameable(username@, domain_of(domain@)),
                Err(e) => e is InitFailed && nameable(username@, domain_of(domain@)),
            },
    {
        let domain: Option<&str> = if is_empty_text(domain) {
            None
        } else {
            Some(domain)
        };
        match new_client(server_public_key, username, domain, password, SERVICE_NAME) {
            Ok(client) => Ok(CredsspSession { client, exchange: CredsspExchange::new(hybrid_ex) }),
            Err(e) => Err(e),
        }
    }

    /// Takes what happened and gives what to do next; messages are processed on the way.
    pub fn handle(&mut self, event: CredsspEvent) -> (action: Result<CredsspAction, CredsspError>)
        requires
            old(self).valid(),
        ensures
            final(self).valid(),
            made_for(final(self).client) == made_for(old(self).client),
            ({
                let x = old(self).exchange;
                let readable = event_readable(x.round, event);
                match exchange_step(x, event, readable).1 {
                    Ok(CredsspAction::Process(request)) => {
                        &&& heard(final(self).client) == heard(old(self).client).push(request_message(request))
                        &&& answers(final(self).client) == answers(old(self).client).push(
                            answers(final(self).client).last(),
                        )
                        &&& exists|reply: CredsspReply|
                            is_reply_of(answers(final(self).client).last(), reply) && (final(self).exchange, action)
                                == #[trigger] session_step(x, event, readable, reply)
                    },
                    _ => {
                        &&& final(self).client == old(self).client
                        &&& (final(self).exchange, action) == exchange_step(x, event, readable)
                    },
                }
            }),
    {
        let ghost x = self.exchange;
        let round: u32 = self.exchange.round;
        let received = match &event {
            CredsspEvent::Received(bytes) => read_request(bytes.as_slice()),
            _ => None,
        };
        let readable = match &received {
            Some(request) => round != ECHO_ROUND || is_echo_sound(request),
            None => false,
        };
        assert(readable == event_readable(x.round, event));
        match self.exchange.step(event, readable) {
            Ok(CredsspAction::Process(request)) => {
                let message = match received {
                    Some(message) => message,
                    None => empty_request(),
                };
                assert(message_of(message) == request_message(request));
                let answer = process(&mut self.client, message);
                let reply = reply_of(answer);
                let ghost given = reply;
                let action = self.exchange.step(CredsspEvent::Processed(reply), false);
                assert(is_reply_of(answers(self.client).last(), given) && (self.exchange, action) == session_step(
                    x,
                    event,
                    readable,
                    given,
                ));
                action
            }
            action => action,
        }
    }
}

fn is_echo_sound(request: &TsRequest) -> (sound: bool)
    ensures
        sound == echo_sound(message_of(*request)),
{
    match sizes_of(request).pub_key_auth {
        Some(len) => len >= SIGNATURE_LEN,
        None => true,
    }
}

// ---------------------------------------------------------------------------
// Laws
// ---------------------------------------------------------------------------
/// Each message that is processed begins a round, and no more than eleven are begun.
pub proof fn law_rounds_are_bounded(x: CredsspExchange, event: CredsspEvent, readable: bool)
    requires
        x.round <= MAX_ROUNDS + 1,
    ensures
        exchange_step(x, event, readable).0.round <= MAX_ROUNDS + 1,
        exchange_step(x, event, readable).1 matches Ok(CredsspAction::Process(Some(_))) ==> exchange_step(
            x,
            event,
            readable,
        ).0.round == x.round + 1,
{
}

/// The authentication succeeds only after the last message has been sent, and where a
/// verdict is due, only on one of four zero bytes.
pub proof fn law_success_needs_the_last_message(x: CredsspExchange, event: CredsspEvent, readable: bool)
    ensures
        exchange_step(x, event, readable).1 matches Ok(CredsspAction::Finish) ==> {
            ||| x.state == CredsspState::FinalSent && !x.hybrid_ex
            ||| x.state == CredsspState::AwaitingVerdict && (event matches CredsspEvent::Received(bytes) && bytes@
                == seq![0u8, 0u8, 0u8, 0u8])
        },
        exchange_step(x, event, readable).0.state == CredsspState::FinalSent ==> x.state == CredsspState::Processing
            && (event matches CredsspEvent::Processed(reply) && reply is Final),
        exchange_step(x, event, readable).0.state == CredsspState::AwaitingVerdict ==> x.state
            == CredsspState::FinalSent && x.hybrid_ex,
{
}

/// An authentication that has ended, either way, does nothing more.
pub proof fn law_ended_exchange_does_nothing(x: CredsspExchange, event: CredsspEvent, readable: bool)
    requires
        x.state == CredsspState::Done || x.state == CredsspState::Failed,
    ensures
        exchange_step(x, event, readable) == (
            CredsspExchange { state: CredsspState::Failed, ..x },
            Err::<CredsspAction, CredsspError>(CredsspError::OutOfOrder),
        ),
{
}

/// An exchange goes its way: it begins with an empty message, sends what the client makes of
/// each message and reads the next, until the client's last message is sent; then it is done,
/// or reads a verdict of four bytes, where one follows. What was received is what is processed,
/// and what was made is what is sent.
pub proof fn law_exchange_goes_its_way(x: CredsspExchange, bytes: Vec<u8>, text: String, readable: bool)
    ensures
        ({
            let at = |state: CredsspState| CredsspExchange { state, ..x };
            let begun = exchange_step(at(CredsspState::Start), CredsspEvent::Begin, readable);
            let replied = exchange_step(
                at(CredsspState::Processing),
                CredsspEvent::Processed(CredsspReply::Reply(bytes)),
                readable,
            );
            let ended = exchange_step(
                at(CredsspState::Processing),
                CredsspEvent::Processed(CredsspReply::Final(bytes)),
                readable,
            );
            let asked = exchange_step(at(CredsspState::ReplySent), CredsspEvent::Sent, readable);
            let heard = exchange_step(at(CredsspState::AwaitingMessage), CredsspEvent::Received(bytes), true);
            let last = exchange_step(at(CredsspState::FinalSent), CredsspEvent::Sent, readable);
            let decided = exchange_step(at(CredsspState::AwaitingVerdict), CredsspEvent::Received(bytes), readable);
            let zero = bytes@.len() == 4 && bytes@[0] == 0 && bytes@[1] == 0 && bytes@[2] == 0 && bytes@[3] == 0;
            &&& begun.0.state is Processing && begun.0.round == 1
            &&& begun.1 == Ok::<CredsspAction, CredsspError>(CredsspAction::Process(None))
            &&& replied == (at(CredsspState::ReplySent), Ok::<CredsspAction, CredsspError>(CredsspAction::Send(bytes)))
            &&& ended == (at(CredsspState::FinalSent), Ok::<CredsspAction, CredsspError>(CredsspAction::Send(bytes)))
            &&& asked == (at(CredsspState::AwaitingMessage), Ok::<CredsspAction, CredsspError>(
                CredsspAction::ReadMessage,
            ))
            &&& x.round <= 10 ==> heard.0.state is Processing && heard.0.round == x.round + 1 && heard.1 == Ok::<
                CredsspAction,
                CredsspError,
            >(CredsspAction::Process(Some(bytes)))
            &&& x.round > 10 ==> heard == (at(CredsspState::Failed), Err::<CredsspAction, CredsspError>(
                CredsspError::TooManyRounds,
            ))
            &&& x.hybrid_ex ==> last == (at(CredsspState::AwaitingVerdict), Ok::<CredsspAction, CredsspError>(
                CredsspAction::ReadExact(4),
            ))
            &&& !x.hybrid_ex ==> last == (at(CredsspState::Done), Ok::<CredsspAction, CredsspError>(
                CredsspAction::Finish,
            ))
            &&& zero ==> decided == (at(CredsspState::Done), Ok::<CredsspAction, CredsspError>(CredsspAction::Finish))
            &&& !zero ==> decided == (at(CredsspState::Failed), Err::<CredsspAction, CredsspError>(
                CredsspError::Denied(bytes),
            ))
        }),
{
    let zero = bytes@.len() == 4 && bytes@[0] == 0 && bytes@[1] == 0 && bytes@[2] == 0 && bytes@[3] == 0;
    if zero {
        assert(bytes@ =~= seq![0u8, 0u8, 0u8, 0u8]);
    }
}

/// Whatever goes wrong while a message is made or read ends the exchange with its own error.
pub proof fn law_each_failure_has_its_error(x: CredsspExchange, bytes: Vec<u8>, text: String, readable: bool)
    ensures
        ({
            let at = |state: CredsspState| CredsspExchange { state, ..x };
            let made = |reply: CredsspReply|
                exchange_step(at(CredsspState::Processing), CredsspEvent::Processed(reply), readable);
            let unread = exchange_step(at(CredsspState::AwaitingMessage), CredsspEvent::Received(bytes), false);
            let failed = at(CredsspState::Failed);
            &&& made(CredsspReply::Failed(text)) == (failed, Err::<CredsspAction, CredsspError>(
                CredsspError::ProcessFailed(text),
            ))
            &&& made(CredsspReply::NetworkRequest) == (failed, Err::<CredsspAction, CredsspError>(
                CredsspError::NetworkRequest,
            ))
            &&& made(CredsspReply::NotEncoded) == (failed, Err::<CredsspAction, CredsspError>(
                CredsspError::EncodeFailed,
            ))
            &&& unread == (failed, Err::<CredsspAction, CredsspError>(CredsspError::DecodeFailed))
        }),
{
}

/// The bytes of a value with a tag of one byte and its length: in one byte below 128, otherwise
/// in one or two bytes behind one that counts them.
pub open spec fn with_tag(n: int) -> int {
    1 + n + if n < 128 {
        1int
    } else if n < 256 {
        2
    } else {
        3
    }
}

/// A message is as long as its fields with their tags and lengths: five around the tokens, two
/// around the echo of the key and around the credentials, a nonce of 36 bytes from version 5
/// on, and an error code in as few bytes as a signed number takes, up to four, with four more,
/// from version 3 on but for version 5; and five bytes for the version.
pub proof fn law_message_size_adds_up(message: AuthMessage)
    ensures
        ({
            let tokens = match message.nego_tokens {
                Some(t) => with_tag(with_tag(with_tag(with_tag(with_tag(t.len() as int))))),
                None => 0,
            };
            let echo = match message.pub_key_auth {
                Some(t) => with_tag(with_tag(t.len() as int)),
                None => 0,
            };
            let info = match message.auth_info {
                Some(t) => with_tag(with_tag(t.len() as int)),
                None => 0,
            };
            let nonce: int = if message.version >= 5 && message.client_nonce is Some {
                36
            } else {
                0
            };
            let coded = message.version == 3 || message.version == 4 || message.version >= 6;
            &&& !coded || message.error_code is None ==> message_size(message) == tokens + echo + info + nonce + 5
            &&& coded ==> (message.error_code matches Some(code) ==> {
                let number: int = if code < 128 {
                    1
                } else if code < 128 * 256 {
                    2
                } else if code < 128 * 0x1_0000 {
                    3
                } else {
                    4
                };
                message_size(message) == tokens + echo + info + nonce + 4 + number + 5
            })
        }),
{
    reveal_with_fuel(wrapped, 6);
}

/// Only a message that fits is sent, as it is written; one that does not fit, or cannot be
/// written, is an error, and so the exchange ends.
pub proof fn law_answers_are_sent_as_written(request: TsRequest, text: String, reply: CredsspReply)
    ensures
        ({
            let message = message_of(request);
            let bytes = message_bytes(message);
            let can = message_size(message) <= 0xFFFF && bytes is Some;
            &&& is_reply_of(ClientAnswer::Reply(request), reply) ==> (if can {
                reply is Reply && reply->Reply_0@ == bytes->0
            } else {
                reply is NotEncoded
            })
            &&& is_reply_of(ClientAnswer::Final(request), reply) ==> (if can {
                reply is Final && reply->Final_0@ == bytes->0
            } else {
                reply is NotEncoded
            })
            &&& is_reply_of(ClientAnswer::Failed(text), reply) ==> reply == CredsspReply::Failed(text)
            &&& is_reply_of(ClientAnswer::NetworkRequest, reply) ==> reply is NetworkRequest
        }),
{
}

/// A message is readable where it is one; the one that is read third must, if it holds an echo
/// of the server's key, hold at least the 16 bytes of its signature.
pub proof fn law_echo_must_hold_its_signature(round: u32, bytes: Vec<u8>)
    ensures
        ({
            let readable = event_readable(round, CredsspEvent::Received(bytes));
            &&& message_in(bytes@) is None ==> !readable
            &&& message_in(bytes@) is Some && round != 2 ==> readable
            &&& message_in(bytes@) matches Some(message) ==> (message.pub_key_auth matches Some(echo) ==> {
                round == 2 ==> readable == (echo.len() >= 16)
            })
            &&& message_in(bytes@) matches Some(message) ==> (message.pub_key_auth is None ==> readable)
        }),
{
}

/// Any password that does not begin as a hash does can be looked at, and so can one that is the
/// hash of 16 bytes in hexadecimal.
pub proof fn law_hashes_are_readable(password: Seq<char>, hash: Seq<u8>)
    requires
        hash.len() == 16,
    ensures
        !occurs_at(password, "$NTLM$:"@, 0) ==> hash_readable(password),
        hash_readable("$NTLM$:"@ + crate::tls::hex_text(hash)),
{
    let written = "$NTLM$:"@ + crate::tls::hex_text(hash);
    assert(written.skip("$NTLM$:"@.len() as int) =~= crate::tls::hex_text(hash));
    crate::tls::law_hex_round_trip(hash);
}

/// Credentials can be used exactly where the user's name, the password and the domain take no
/// more than 65490 bytes together, two for each unit, and the password can be looked at.
pub proof fn law_usable_credentials_fit(username: Seq<char>, domain: Seq<char>, password: Seq<char>)
    ensures
        usable(username, domain_of(domain), password) == (2 * (crate::utf16::encode(username).len()
            + crate::utf16::encode(domain).len() + crate::utf16::encode(password).len()) <= 65490 && hash_readable(
            password,
        )),
        domain.len() == 0 ==> domain_of(domain) is None,
        domain.len() > 0 ==> domain_of(domain) == Some(domain),
{
    if domain.len() == 0 {
        assert(crate::utf16::encode(domain).len() == 0);
    }
}

} // verus!
