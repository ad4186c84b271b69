//! The connect path and the interactive session loop, as decisions on
//! plain values. The binary performs the dialing, the prompt and the
//! command exchange; this module decides what to send, what to print and
//! when the session is over.
use vstd::prelude::*;

use crate::ConnectionOptions;
use crate::configfile::Configuration;
use crate::error::Error;
use crate::registry::find_spec;
use crate::registry::has_server_named;
use crate::with_quirks;

verus! {

/// Arguments of the connect subcommand.
pub struct ConnectArgs {
    pub server: String,
}

/// The failure surface of the external protocol collaborator, carried as
/// plain values.
pub enum ProtocolError {
    Auth,
    CommandTooLong,
    Io(String),
}

/// How each collaborator failure maps into the core taxonomy.
pub open spec fn protocol_error_to_core(e: ProtocolError) -> Error {
    match e {
        ProtocolError::Auth => Error::AuthenticationError,
        ProtocolError::CommandTooLong => Error::CommandTooLong,
        ProtocolError::Io(m) => Error::ConnectionError(m),
    }
}

/// Translates a collaborator failure into the core error taxonomy.
pub fn map_protocol_error(e: ProtocolError) -> (r: Error)
    ensures
        r == protocol_error_to_core(e),
{
    match e {
        ProtocolError::Auth => Error::AuthenticationError,
        ProtocolError::CommandTooLong => Error::CommandTooLong,
        ProtocolError::Io(m) => Error::ConnectionError(m),
    }
}

/// Everything the binary needs to dial one server: the prompt name, the
/// address, the credential, and the resolved protocol options.
pub struct ConnectPlan {
    pub name: String,
    pub address: String,
    pub password: String,
    pub options: ConnectionOptions,
}

/// Resolves a connect request against the registry, before any network
/// work: an unknown name fails with `ServerDoesNotExist`; a known name
/// yields the first matching record's address and credential, with its
/// quirks applied to the connector's default options.
pub fn prepare_connect(args: &ConnectArgs, config: &Configuration) -> (r: Result<
    ConnectPlan,
    Error,
>)
    ensures
        !has_server_named(config@, args.server@) ==> (r matches Err(e) && e is ServerDoesNotExist),
        has_server_named(config@, args.server@) ==> (r matches Ok(p) && {
            let t = find_spec(config@, args.server@)->Some_0;
            &&& p.name@ == t.name
            &&& p.address@ == t.address
            &&& p.password@ == t.password
            &&& p.options == with_quirks(ConnectionOptions::spec_default(), t.quirks)
        }),
{
    match config.find(&args.server) {
        None => Err(Error::ServerDoesNotExist),
        Some(target) => {
            let options = target.enable_quirks(ConnectionOptions::new());
            Ok(ConnectPlan {
                name: target.name.clone(),
                address: target.address.clone(),
                password: target.password.clone(),
                options,
            })
        },
    }
}

/// The two states of an interactive session: entered on a successful
/// connect, left on the first unrecoverable failure.
#[derive(Clone, Copy, PartialEq, Eq, Structural, Debug)]
pub enum SessionState {
    Connected,
    Terminated,
}

/// What the outside world reports to the session loop.
pub enum SessionEvent {
    LineRead(String),
    InputFailed(String),
    CommandSucceeded(String),
    CommandFailed(ProtocolError),
}

/// What the session loop asks the outside world to do next.
pub enum SessionAction {
    SendCommand(String),
    PrintResponse(String),
    Fail(Error),
}

pub uninterp spec fn trim_of(s: Seq<char>) -> Seq<char>;

/// Relies on str::trim: removes leading and trailing whitespace; the
/// result is a subslice of the input and a function of its characters
/// alone.
#[verifier::external_body]
fn trim_line(s: &str) -> (r: String)
    ensures
        r@ == trim_of(s@),
        r@.len() <= s@.len(),
{
    s.trim().to_owned()
}

/// One decision step of the interactive loop. While connected: a read
/// line is trimmed and sent verbatim as one command; a successful command
/// has its response printed verbatim and the session stays connected; any
/// failure terminates the session with the translated error.
pub fn session_step(state: SessionState, event: SessionEvent) -> (r: (
    SessionState,
    SessionAction,
))
    requires
        state is Connected,
    ensures
        match event {
            SessionEvent::LineRead(l) => r.0 is Connected && (r.1 matches
            SessionAction::SendCommand(c) && c@ == trim_of(l@)),
            SessionEvent::InputFailed(m) => r.0 is Terminated && r.1 == SessionAction::Fail(
                Error::IoError(m),
            ),
            SessionEvent::CommandSucceeded(resp) => r.0 is Connected && r.1
                == SessionAction::PrintResponse(resp),
            SessionEvent::CommandFailed(e) => r.0 is Terminated && r.1 == SessionAction::Fail(
                protocol_error_to_core(e),
            ),
        },
{
    match event {
        SessionEvent::LineRead(l) => (
            SessionState::Connected,
            SessionAction::SendCommand(trim_line(l.as_str())),
        ),
        SessionEvent::InputFailed(m) => (
            SessionState::Terminated,
            SessionAction::Fail(Error::IoError(m)),
        ),
        SessionEvent::CommandSucceeded(resp) => (
            SessionState::Connected,
            SessionAction::PrintResponse(resp),
        ),
        SessionEvent::CommandFailed(e) => (
            SessionState::Terminated,
            SessionAction::Fail(map_protocol_error(e)),
        ),
    }
}

} // verus!
