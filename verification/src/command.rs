//! The messages that clients and the hub exchange.
use vstd::prelude::*;
use crate::json::Json;
use crate::chart::owned;

verus! {

/// The role a client takes when it connects.
#[derive(Clone, Copy, Debug, PartialEq, Eq, Structural)]
pub enum InitCommandType {
    Provider,
    Subscriber,
}

/// A name that no role has.
#[derive(Clone, Copy, Debug, PartialEq, Eq, Structural)]
pub struct VariantNotFound;

/// The name of a role.
pub open spec fn init_type_name(t: InitCommandType) -> Seq<char> {
    match t {
        InitCommandType::Provider => "Provider"@,
        InitCommandType::Subscriber => "Subscriber"@,
    }
}

impl InitCommandType {
    /// The role with the given name (exactly `Provider` or `Subscriber`).
    pub fn from_str(s: &str) -> (r: Result<InitCommandType, VariantNotFound>)
        ensures
            r matches Ok(t) ==> init_type_name(t) == s@,
            r is Err ==> s@ != "Provider"@ && s@ != "Subscriber"@,
    {
        if crate::text::str_equal(s, "Provider") {
            Ok(InitCommandType::Provider)
        } else if crate::text::str_equal(s, "Subscriber") {
            Ok(InitCommandType::Subscriber)
        } else {
            Err(VariantNotFound)
        }
    }

    /// The name of the role.
    pub fn to_string(&self) -> (r: String)
        ensures
            r@ == init_type_name(*self),
    {
        match self {
            InitCommandType::Provider => owned("Provider"),
            InitCommandType::Subscriber => owned("Subscriber"),
        }
    }
}

impl Default for InitCommandType {
    fn default() -> (r: InitCommandType)
        ensures
            r == InitCommandType::Provider,
    {
        InitCommandType::Provider
    }
}

/// The first message of a client: the role it takes.
#[derive(Clone, Copy, Debug, PartialEq, Eq, Structural)]
pub struct InitCommand {
    pub kind: InitCommandType,
}

impl Default for InitCommand {
    fn default() -> (r: InitCommand)
        ensures
            r.kind == InitCommandType::Provider,
    {
        InitCommand { kind: InitCommandType::Provider }
    }
}

/// What went wrong on a connection.
#[derive(Clone, Copy, Debug, PartialEq, Eq, Structural)]
pub enum SocketErrorType {
    ParseError,
    ParametersNotFound,
    UnknownInitType,
    AlreadyInited,
    WrongInitType,
}

/// An error reported on a connection.
#[derive(Debug)]
pub struct SocketError {
    pub error_type: SocketErrorType,
    pub message: String,
}

/// A message between a client and the hub.
#[derive(Debug)]
pub enum Command {
    Init(InitCommand),
    Error(SocketError),
    Event(Json),
    InitialState(Json),
    Data(Json),
    CloseConnection,
}

} // verus!
