//! What a client decides: which message goes out on which channel, and which
//! listener an incoming message is handed to. The channels themselves are
//! the caller's (`D` carries data to listeners, `C` carries messages out).
use vstd::prelude::*;
use crate::command::{Command, InitCommand, InitCommandType};
use crate::json::Json;

verus! {

/// A client: its role, the listeners for new and initial data, and the
/// channel for outgoing messages.
pub struct BaseClient<D, C> {
    kind: InitCommandType,
    new_data_tx: Option<D>,
    initial_data_tx: Option<D>,
    command_out_tx: Option<C>,
}

impl<D, C> BaseClient<D, C> {
    pub closed spec fn role(&self) -> InitCommandType {
        self.kind
    }

    pub closed spec fn new_data_listener(&self) -> Option<D> {
        self.new_data_tx
    }

    pub closed spec fn initial_data_listener(&self) -> Option<D> {
        self.initial_data_tx
    }

    pub closed spec fn command_out(&self) -> Option<C> {
        self.command_out_tx
    }

    /// A client of the given role with no listeners and no outgoing channel.
    pub fn new(kind: InitCommandType) -> (r: Self)
        ensures
            r.role() == kind,
            r.new_data_listener() is None,
            r.initial_data_listener() is None,
            r.command_out() is None,
    {
        BaseClient { kind, new_data_tx: None, initial_data_tx: None, command_out_tx: None }
    }

    /// The message that shares data, and the channel it goes out on.
    pub fn share_data(&self, data: Json) -> (r: (&C, Command))
        requires
            self.command_out() is Some,
        ensures
            *r.0 == self.command_out().unwrap(),
            r.1 == Command::Data(data),
    {
        (self.command_out_tx.as_ref().unwrap(), Command::Data(data))
    }

    /// Sets the channel for outgoing messages.
    pub fn set_command_out_tx(&mut self, tx: C)
        ensures
            final(self).command_out() == Some(tx),
            final(self).role() == old(self).role(),
            final(self).new_data_listener() == old(self).new_data_listener(),
            final(self).initial_data_listener() == old(self).initial_data_listener(),
    {
        self.command_out_tx = Some(tx);
    }

    /// The first message after connecting: the client's role.
    pub fn after_connection(&self) -> (r: (&C, Command))
        requires
            self.command_out() is Some,
        ensures
            *r.0 == self.command_out().unwrap(),
            r.1 == Command::Init(InitCommand { kind: self.role() }),
    {
        let command = Command::Init(InitCommand { kind: self.kind });
        (self.command_out_tx.as_ref().unwrap(), command)
    }

    /// The message that closes the connection.
    pub fn disconnect(&self) -> (r: (&C, Command))
        requires
            self.command_out() is Some,
        ensures
            *r.0 == self.command_out().unwrap(),
            r.1 == Command::CloseConnection,
    {
        (self.command_out_tx.as_ref().unwrap(), Command::CloseConnection)
    }

    /// Sets the listener for new data.
    pub fn set_on_new_data(&mut self, tx: D)
        ensures
            final(self).new_data_listener() == Some(tx),
            final(self).role() == old(self).role(),
            final(self).initial_data_listener() == old(self).initial_data_listener(),
            final(self).command_out() == old(self).command_out(),
    {
        self.new_data_tx = Some(tx);
    }

    /// Sets the listener for the initial state.
    pub fn set_on_initial_data(&mut self, tx: D)
        ensures
            final(self).initial_data_listener() == Some(tx),
            final(self).role() == old(self).role(),
            final(self).new_data_listener() == old(self).new_data_listener(),
            final(self).command_out() == old(self).command_out(),
    {
        self.initial_data_tx = Some(tx);
    }

    /// Where an incoming message goes: the initial state to the listener for
    /// initial data, data to the listener for new data, each only where that
    /// listener is set; every other message goes nowhere.
    pub fn execute_command(&self, command: Command) -> (r: Option<(&D, Json)>)
        ensures
            match command {
                Command::InitialState(data) => match self.initial_data_listener() {
                    Some(tx) => r == Some((&tx, data)),
                    None => r is None,
                },
                Command::Data(data) => match self.new_data_listener() {
                    Some(tx) => r == Some((&tx, data)),
                    None => r is None,
                },
                _ => r is None,
            },
    {
        match command {
            Command::InitialState(data) => match &self.initial_data_tx {
                Some(tx) => Some((tx, data)),
                None => None,
            },
            Command::Data(data) => match &self.new_data_tx {
                Some(tx) => Some((tx, data)),
                None => None,
            },
            _ => None,
        }
    }
}

} // verus!
