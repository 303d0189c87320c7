//! The connection sequence.
//!
//! The connector of `ironrdp` says at every turn where it stands. This module decides
//! what is done about it: upgrade to TLS, authenticate, read a PDU or go on without
//! one, and send what the connector has written.

use vstd::prelude::*;
use vstd::utf8::encode_utf8;

use crate::text::{chars_of, find_from, lemma_place_of, occurs};
use crate::tls::{
    certificate_key, cuts_cleanly, extract_public_key, hex_decodable, hex_decode, hex_value, key_result,
    law_certificate_arrives, parse_tls_ready, ready_cert, HexError, KeyError,
};

verus! {

/// Why a connection fails.
#[derive(Debug, Clone, Copy, PartialEq, Eq)]
pub enum ConnectionError {
    /// The proxy did not answer that TLS stands.
    InvalidTlsReply,
    /// The proxy's answer holds no certificate in hexadecimal.
    InvalidCertificateHex(HexError),
    /// The certificate gives no key.
    InvalidCertificate(KeyError),
    /// The server does not accept the credentials.
    AuthenticationFailed,
    /// The connector refuses to go on.
    StepFailed,
    OutOfOrder,
}

/// The certificate in the proxy's answer.
pub open spec fn certificate_in(reply: Seq<char>) -> Result<Seq<u8>, ConnectionError> {
    match ready_cert(reply) {
        None => Err(ConnectionError::InvalidTlsReply),
        Some(hex) => match hex_value(hex) {
            Ok(der) => Ok(der),
            Err(e) => Err(ConnectionError::InvalidCertificateHex(e)),
        },
    }
}

/// Whether the certificate in the proxy's answer can be cut into pairs of bytes.
pub open spec fn reply_cuts(reply: Seq<char>) -> bool {
    ready_cert(reply) matches Some(hex) ==> (encode_utf8(hex).len() % 2 == 0 ==> cuts_cleanly(hex))
}

/// Whether the proxy's answer can be read.
pub fn tls_reply_readable(reply: &str) -> (readable: bool)
    ensures
        readable == reply_cuts(reply@),
{
    match parse_tls_ready(reply) {
        Some(hex) => hex_decodable(hex.as_str()),
        None => true,
    }
}

/// Takes the server's certificate out of the proxy's answer to the request for TLS.
pub fn perform_tls_upgrade(reply: &str) -> (cert_der: Result<Vec<u8>, ConnectionError>)
    requires
        reply_cuts(reply@),
    ensures
        match cert_der {
            Ok(der) => certificate_in(reply@) == Ok::<Seq<u8>, ConnectionError>(der@),
            Err(e) => certificate_in(reply@) == Err::<Seq<u8>, ConnectionError>(e),
        },
{
    match parse_tls_ready(reply) {
        Some(hex) => match hex_decode(hex.as_str()) {
            Ok(der) => Ok(der),
            Err(e) => Err(ConnectionError::InvalidCertificateHex(e)),
        },
        None => Err(ConnectionError::InvalidTlsReply),
    }
}

/// Whether the connector's state, written out, names the security protocol under which
/// the server gives a verdict on the user.
pub fn names_hybrid_ex(state: &str) -> (named: bool)
    ensures
        named == occurs(state@, "HYBRID_EX"@),
{
    let chars = chars_of(state);
    let needle = chars_of("HYBRID_EX");
    proof {
        lemma_place_of(chars@, needle@, 0);
    }
    find_from(&chars, &needle, 0).is_some()
}

/// Where the connector stands.
#[derive(Debug, Clone, Copy, PartialEq, Eq)]
pub struct ConnectorStatus {
    pub connected: bool,
    pub should_perform_security_upgrade: bool,
    pub should_perform_credssp: bool,
    /// Whether the server gives a verdict after the authentication.
    pub hybrid_ex: bool,
    /// Whether the connector needs a PDU of the server to go on.
    pub wants_pdu: bool,
}

/// What the sequence waits for.
#[derive(Debug, Clone, Copy, PartialEq, Eq)]
pub enum ConnectionState {
    /// To be told where the connector stands.
    Turn,
    /// The proxy's answer to the request for TLS.
    Tls,
    /// The end of the authentication.
    Credssp,
    /// A PDU of the server.
    Pdu,
    /// What the connector has written.
    Step,
    Done,
    Failed,
}

/// What happened.
#[derive(Debug, PartialEq, Eq)]
pub enum ConnectionEvent {
    Status(ConnectorStatus),
    Text(String),
    Authenticated,
    AuthenticationFailed,
    Received(Vec<u8>),
    /// The connector has taken its step. `nothing` is whether it has nothing to send,
    /// `filled` what its buffer holds.
    Stepped { nothing: bool, filled: Vec<u8> },
    StepFailed,
}

/// What is to be done next.
#[derive(Debug, PartialEq, Eq)]
pub enum ConnectionAction {
    /// The connection stands.
    Finish,
    /// Send [`crate::tls::TLS_UPGRADE_COMMAND`] to the proxy and wait for a text.
    RequestTls,
    MarkSecurityUpgradeAsDone,
    /// Authenticate against the key of the server's certificate.
    Authenticate { hybrid_ex: bool },
    MarkCredsspAsDone,
    /// Read one PDU of the size that the connector's hint tells.
    ReadByHint,
    /// Let the connector take its step with a PDU.
    Step(Vec<u8>),
    StepNoInput,
    /// Send these bytes and empty the connector's buffer.
    Send(Vec<u8>),
    /// Empty the connector's buffer.
    ClearBuffer,
    /// Look where the connector stands.
    Continue,
}

/// A connection sequence in progress.
#[derive(Debug, PartialEq, Eq)]
pub struct ConnectionSequence {
    pub state: ConnectionState,
    /// The key of the server's certificate, empty before TLS stands.
    pub server_public_key: Vec<u8>,
}

/// What is done about where the connector stands.
pub open spec fn turn(has_key: bool, status: ConnectorStatus) -> (ConnectionState, ConnectionAction) {
    if status.connected {
        (ConnectionState::Done, ConnectionAction::Finish)
    } else if status.should_perform_security_upgrade {
        (ConnectionState::Tls, ConnectionAction::RequestTls)
    } else if status.should_perform_credssp {
        // Without a certificate there is nothing to bind the authentication to.
        if has_key {
            (ConnectionState::Credssp, ConnectionAction::Authenticate { hybrid_ex: status.hybrid_ex })
        } else {
            (ConnectionState::Turn, ConnectionAction::MarkCredsspAsDone)
        }
    } else if status.wants_pdu {
        (ConnectionState::Pdu, ConnectionAction::ReadByHint)
    } else {
        (ConnectionState::Step, ConnectionAction::StepNoInput)
    }
}

/// What is done with what the connector has written.
pub open spec fn outgoing(nothing: bool, filled: Vec<u8>) -> ConnectionAction {
    if nothing {
        ConnectionAction::Continue
    } else if filled@.len() == 0 {
        ConnectionAction::ClearBuffer
    } else {
        ConnectionAction::Send(filled)
    }
}

/// One step of the sequence: where it stands afterwards, the key of the server's
/// certificate, and what to do. `key` is what the certificate of a received text gives.
pub open spec fn sequence_step(
    state: ConnectionState,
    before: Seq<u8>,
    event: ConnectionEvent,
    key: Result<Seq<u8>, ConnectionError>,
) -> (ConnectionState, Seq<u8>, Result<ConnectionAction, ConnectionError>) {
    match (state, event) {
        (ConnectionState::Turn, ConnectionEvent::Status(status)) => {
            let (next, action) = turn(before.len() > 0, status);
            (next, before, Ok(action))
        },
        (ConnectionState::Tls, ConnectionEvent::Text(_)) => match key {
            Ok(bytes) => (ConnectionState::Turn, bytes, Ok(ConnectionAction::MarkSecurityUpgradeAsDone)),
            Err(e) => (ConnectionState::Failed, before, Err(e)),
        },
        (ConnectionState::Credssp, ConnectionEvent::Authenticated) => (
            ConnectionState::Turn,
            before,
            Ok(ConnectionAction::MarkCredsspAsDone),
        ),
        // The server asked for the authentication, so there is no way on without it.
        (ConnectionState::Credssp, ConnectionEvent::AuthenticationFailed) => (
            ConnectionState::Failed,
            before,
            Err(ConnectionError::AuthenticationFailed),
        ),
        (ConnectionState::Pdu, ConnectionEvent::Received(pdu)) => (
            ConnectionState::Step,
            before,
            Ok(ConnectionAction::Step(pdu)),
        ),
        (ConnectionState::Step, ConnectionEvent::Stepped { nothing, filled }) => (
            ConnectionState::Turn,
            before,
            Ok(outgoing(nothing, filled)),
        ),
        (ConnectionState::Step, ConnectionEvent::StepFailed) => (
            ConnectionState::Failed,
            before,
            Err(ConnectionError::StepFailed),
        ),
        _ => (ConnectionState::Failed, before, Err(ConnectionError::OutOfOrder)),
    }
}

/// The key of a certificate, as the sequence takes it.
pub open spec fn key_of(key: Result<Seq<u8>, KeyError>) -> Result<Seq<u8>, ConnectionError> {
    match key {
        Ok(bytes) => Ok(bytes),
        Err(e) => Err(ConnectionError::InvalidCertificate(e)),
    }
}

/// The key of the certificate in the proxy's answer.
pub open spec fn key_in(reply: Seq<char>) -> Result<Seq<u8>, ConnectionError> {
    match certificate_in(reply) {
        Ok(der) => key_of(key_result(certificate_key(der))),
        Err(e) => Err(e),
    }
}

/// Bytes or an error, as a value.
pub open spec fn bytes_result(bytes: Result<Vec<u8>, ConnectionError>) -> Result<Seq<u8>, ConnectionError> {
    match bytes {
        Ok(b) => Ok(b@),
        Err(e) => Err(e),
    }
}

fn turn_of(has_key: bool, status: ConnectorStatus) -> (next: (ConnectionState, ConnectionAction))
    ensures
        next == turn(has_key, status),
{
    if status.connected {
        (ConnectionState::Done, ConnectionAction::Finish)
    } else if status.should_perform_security_upgrade {
        (ConnectionState::Tls, ConnectionAction::RequestTls)
    } else if status.should_perform_credssp {
        if has_key {
            (ConnectionState::Credssp, ConnectionAction::Authenticate { hybrid_ex: status.hybrid_ex })
        } else {
            (ConnectionState::Turn, ConnectionAction::MarkCredsspAsDone)
        }
    } else if status.wants_pdu {
        (ConnectionState::Pdu, ConnectionAction::ReadByHint)
    } else {
        (ConnectionState::Step, ConnectionAction::StepNoInput)
    }
}

fn key_of_reply(reply: &str) -> (key: Result<Vec<u8>, ConnectionError>)
    requires
        reply_cuts(reply@),
    ensures
        bytes_result(key) == key_in(reply@),
{
    let der = match perform_tls_upgrade(reply) {
        Ok(der) => der,
        Err(e) => return Err(e),
    };
    match extract_public_key(der.as_slice()) {
        Ok(bytes) => Ok(bytes),
        Err(e) => Err(ConnectionError::InvalidCertificate(e)),
    }
}

impl ConnectionSequence {
    pub fn new() -> (sequence: Self)
        ensures
            sequence.state == ConnectionState::Turn,
            sequence.server_public_key@ == Seq::<u8>::empty(),
    {
        ConnectionSequence { state: ConnectionState::Turn, server_public_key: Vec::new() }
    }

    /// Takes what happened and gives what to do next, where the key of the certificate
    /// in a received text has been taken out already.
    pub fn step(&mut self, event: ConnectionEvent, key: Result<Vec<u8>, ConnectionError>) -> (action: Result<
        ConnectionAction,
        ConnectionError,
    >)
        ensures
            (final(self).state, final(self).server_public_key@, action) == sequence_step(
                old(self).state,
                old(self).server_public_key@,
                event,
                bytes_result(key),
            ),
    {
        match (self.state, event) {
            (ConnectionState::Turn, ConnectionEvent::Status(status)) => {
                let (state, action) = turn_of(self.server_public_key.len() > 0, status);
                self.state = state;
                Ok(action)
            }
            (ConnectionState::Tls, ConnectionEvent::Text(_)) => match key {
                Ok(bytes) => {
                    self.server_public_key = bytes;
                    self.state = ConnectionState::Turn;
                    Ok(ConnectionAction::MarkSecurityUpgradeAsDone)
                }
                Err(e) => {
                    self.state = ConnectionState::Failed;
                    Err(e)
                }
            },
            (ConnectionState::Credssp, ConnectionEvent::Authenticated) => {
                self.state = ConnectionState::Turn;
                Ok(ConnectionAction::MarkCredsspAsDone)
            }
            (ConnectionState::Credssp, ConnectionEvent::AuthenticationFailed) => {
                self.state = ConnectionState::Failed;
                Err(ConnectionError::AuthenticationFailed)
            }
            (ConnectionState::Pdu, ConnectionEvent::Received(pdu)) => {
                self.state = ConnectionState::Step;
                Ok(ConnectionAction::Step(pdu))
            }
            (ConnectionState::Step, ConnectionEvent::Stepped { nothing, filled }) => {
                self.state = ConnectionState::Turn;
                if nothing {
                    Ok(ConnectionAction::Continue)
                } else if filled.len() == 0 {
                    Ok(ConnectionAction::ClearBuffer)
                } else {
                    Ok(ConnectionAction::Send(filled))
                }
            }
            (ConnectionState::Step, ConnectionEvent::StepFailed) => {
                self.state = ConnectionState::Failed;
                Err(ConnectionError::StepFailed)
            }
            _ => {
                self.state = ConnectionState::Failed;
                Err(ConnectionError::OutOfOrder)
            }
        }
    }

    /// Takes what happened and gives what to do next.
    pub fn handle(&mut self, event: ConnectionEvent) -> (action: Result<ConnectionAction, ConnectionError>)
        requires
            event matches ConnectionEvent::Text(reply) ==> reply_cuts(reply@),
        ensures
            (final(self).state, final(self).server_public_key@, action) == sequence_step(
                old(self).state,
                old(self).server_public_key@,
                event,
                match event {
                    ConnectionEvent::Text(reply) => key_in(reply@),
                    _ => Err(ConnectionError::OutOfOrder),
                },
            ),
    {
        let key = match &event {
            ConnectionEvent::Text(reply) => key_of_reply(reply.as_str()),
            _ => Err(ConnectionError::OutOfOrder),
        };
        self.step(event, key)
    }
}

// ---------------------------------------------------------------------------
// Laws
// ---------------------------------------------------------------------------
/// The user's credentials are asked for only once the server's certificate has given a
/// key to bind them to.
pub proof fn law_no_authentication_without_a_key(
    state: ConnectionState,
    before: Seq<u8>,
    event: ConnectionEvent,
    key: Result<Seq<u8>, ConnectionError>,
)
    ensures
        sequence_step(state, before, event, key).2 matches Ok(ConnectionAction::Authenticate { .. }) ==> before.len()
            > 0,
        sequence_step(state, before, event, key).1 != before ==> event is Text && key == Ok::<
            Seq<u8>,
            ConnectionError,
        >(sequence_step(state, before, event, key).1),
{
}

/// A failed authentication ends the sequence: nothing is sent after it.
pub proof fn law_failed_authentication_is_fatal(
    before: Seq<u8>,
    later: ConnectionEvent,
    key: Result<Seq<u8>, ConnectionError>,
)
    ensures
        ({
            let (state, kept, action) = sequence_step(
                ConnectionState::Credssp,
                before,
                ConnectionEvent::AuthenticationFailed,
                key,
            );
            &&& action == Err::<ConnectionAction, ConnectionError>(ConnectionError::AuthenticationFailed)
            &&& sequence_step(state, kept, later, key) == (
                ConnectionState::Failed,
                kept,
                Err::<ConnectionAction, ConnectionError>(ConnectionError::OutOfOrder),
            )
        }),
{
}

/// The certificate that the proxy sends is the certificate that is read from its answer.
pub proof fn law_upgrade_reads_the_certificate(cert: Seq<u8>)
    ensures
        ({
            let answer = crate::tls::json_message("tls_ready"@, "server_cert"@, crate::tls::hex_text(cert));
            &&& reply_cuts(answer)
            &&& certificate_in(answer) == Ok::<Seq<u8>, ConnectionError>(cert)
        }),
{
    law_certificate_arrives(cert);
}

/// The sequence does what the connector needs first: it ends where the connection stands,
/// upgrades before it authenticates, authenticates before it reads, and reads before it lets
/// the connector go on without a PDU.
pub proof fn law_needs_are_met_in_turn(before: Seq<u8>, status: ConnectorStatus, key: Result<
    Seq<u8>,
    ConnectionError,
>)
    ensures
        ({
            let (state, kept, action) = sequence_step(
                ConnectionState::Turn,
                before,
                ConnectionEvent::Status(status),
                key,
            );
            let upgrade = !status.connected && status.should_perform_security_upgrade;
            let login = !status.connected && !upgrade && status.should_perform_credssp;
            let go_on = !status.connected && !upgrade && !login;
            &&& kept == before
            &&& status.connected ==> state is Done && action == Ok::<ConnectionAction, ConnectionError>(ConnectionAction::Finish)
            &&& upgrade ==> state is Tls && action == Ok::<ConnectionAction, ConnectionError>(ConnectionAction::RequestTls)
            &&& login && before.len() > 0 ==> state is Credssp && action == Ok::<ConnectionAction, ConnectionError>(
                ConnectionAction::Authenticate { hybrid_ex: status.hybrid_ex },
            )
            &&& login && before.len() == 0 ==> state is Turn && action == Ok::<ConnectionAction, ConnectionError>(ConnectionAction::MarkCredsspAsDone)
            &&& go_on && status.wants_pdu ==> state is Pdu && action == Ok::<ConnectionAction, ConnectionError>(ConnectionAction::ReadByHint)
            &&& go_on && !status.wants_pdu ==> state is Step && action == Ok::<ConnectionAction, ConnectionError>(ConnectionAction::StepNoInput)
        }),
{
}

/// A PDU of the server reaches the connector as it came, and what the connector has written
/// goes out as it was written, unless it is nothing; then the sequence looks anew where the
/// connector stands. What the connector refuses ends the sequence.
pub proof fn law_bytes_pass_the_connector(before: Seq<u8>, pdu: Vec<u8>, nothing: bool, filled: Vec<u8>, key: Result<
    Seq<u8>,
    ConnectionError,
>)
    ensures
        sequence_step(ConnectionState::Pdu, before, ConnectionEvent::Received(pdu), key) == (
            ConnectionState::Step,
            before,
            Ok::<ConnectionAction, ConnectionError>(ConnectionAction::Step(pdu)),
        ),
        ({
            let (state, kept, action) = sequence_step(
                ConnectionState::Step,
                before,
                ConnectionEvent::Stepped { nothing, filled },
                key,
            );
            &&& state is Turn && kept == before
            &&& nothing ==> action == Ok::<ConnectionAction, ConnectionError>(ConnectionAction::Continue)
            &&& !nothing && filled@.len() > 0 ==> action == Ok::<ConnectionAction, ConnectionError>(
                ConnectionAction::Send(filled),
            )
            &&& !nothing && filled@.len() == 0 ==> action == Ok::<ConnectionAction, ConnectionError>(ConnectionAction::ClearBuffer)
        }),
        sequence_step(ConnectionState::Step, before, ConnectionEvent::StepFailed, key) == (
            ConnectionState::Failed,
            before,
            Err::<ConnectionAction, ConnectionError>(ConnectionError::StepFailed),
        ),
{
}

/// Once the proxy has answered with a certificate that gives a key, that key is the one to
/// authenticate against, and the connector is told that TLS stands; an answer without one ends
/// the sequence. An authentication that succeeds is told to the connector too.
pub proof fn law_key_of_the_answer_is_kept(before: Seq<u8>, text: String, bytes: Seq<u8>, e: ConnectionError)
    ensures
        sequence_step(ConnectionState::Tls, before, ConnectionEvent::Text(text), Ok(bytes)) == (
            ConnectionState::Turn,
            bytes,
            Ok::<ConnectionAction, ConnectionError>(ConnectionAction::MarkSecurityUpgradeAsDone),
        ),
        sequence_step(ConnectionState::Tls, before, ConnectionEvent::Text(text), Err(e)) == (
            ConnectionState::Failed,
            before,
            Err::<ConnectionAction, ConnectionError>(e),
        ),
        sequence_step(ConnectionState::Credssp, before, ConnectionEvent::Authenticated, Err(e)) == (
            ConnectionState::Turn,
            before,
            Ok::<ConnectionAction, ConnectionError>(ConnectionAction::MarkCredsspAsDone),
        ),
{
}

/// The key that the sequence takes from the proxy's answer is that of the certificate that the
/// proxy sent, and an answer that holds none, or one that gives no key, says which it is.
pub proof fn law_key_is_that_of_the_certificate(cert: Seq<u8>, reply: Seq<char>)
    ensures
        ({
            let answer = crate::tls::json_message("tls_ready"@, "server_cert"@, crate::tls::hex_text(cert));
            match certificate_key(cert) {
                Some(Some(key)) => key_in(answer) == Ok::<Seq<u8>, ConnectionError>(key),
                Some(None) => key_in(answer) == Err::<Seq<u8>, ConnectionError>(
                    ConnectionError::InvalidCertificate(KeyError::UnusedBits),
                ),
                None => key_in(answer) == Err::<Seq<u8>, ConnectionError>(
                    ConnectionError::InvalidCertificate(KeyError::Unparsable),
                ),
            }
        }),
        ready_cert(reply) is None ==> key_in(reply) == Err::<Seq<u8>, ConnectionError>(
            ConnectionError::InvalidTlsReply,
        ),
{
    law_upgrade_reads_the_certificate(cert);
}

/// An answer without a certificate can always be read, and so can one whose certificate takes an
/// odd number of bytes, or an even number of ASCII characters: what they hold is told by an error.
pub proof fn law_ordinary_answers_are_readable(reply: Seq<char>)
    ensures
        ready_cert(reply) is None ==> reply_cuts(reply),
        ready_cert(reply) matches Some(hex) ==> {
            &&& encode_utf8(hex).len() % 2 == 1 ==> reply_cuts(reply) && certificate_in(reply) == Err::<
                Seq<u8>,
                ConnectionError,
            >(ConnectionError::InvalidCertificateHex(HexError::OddLength))
            &&& hex.len() % 2 == 0 && (forall|i: int| 0 <= i < hex.len() ==> (#[trigger] hex[i] as int) < 0x80)
                ==> reply_cuts(reply)
            &&& encode_utf8(hex).len() % 2 == 0 && reply_cuts(reply) ==> cuts_cleanly(hex)
        },
{
    if ready_cert(reply) is Some {
        crate::tls::law_ascii_cuts_cleanly(ready_cert(reply)->0);
    }
}

} // verus!
