//! The configuration that drives the compositor under test.

use vstd::prelude::*;

verus! {

/// A message of the configuration to the compositor.
#[derive(Copy, Clone, Debug, PartialEq, Eq, Structural)]
pub enum ClientMessage {
    Quit,
}

#[derive(Copy, Clone, Debug, PartialEq, Eq, Structural)]
pub enum TestError {
    /// The compositor has not handed over its end of the connection yet.
    SrvNotSet,
}

/// The handle under which the compositor waits for messages.
#[derive(Copy, Clone, Debug, PartialEq, Eq, Structural)]
pub struct ServerData {
    pub srv_data: u64,
}

pub struct TestConfig {
    pub srv: Option<ServerData>,
}

impl TestConfig {
    pub fn new() -> (r: TestConfig)
        ensures
            r.srv is None,
    {
        TestConfig { srv: None }
    }

    /// The compositor handed over its end of the connection.
    pub fn init(&mut self, srv: ServerData)
        ensures
            final(self).srv == Some(srv),
    {
        self.srv = Some(srv);
    }

    /// Where a message goes, once the compositor has handed over its end.
    pub fn send(&self, msg: ClientMessage) -> (r: Result<(ServerData, ClientMessage), TestError>)
        ensures
            match self.srv {
                Some(srv) => r == Ok::<(ServerData, ClientMessage), TestError>((srv, msg)),
                None => r == Err::<(ServerData, ClientMessage), TestError>(TestError::SrvNotSet),
            },
    {
        match self.srv {
            Some(srv) => Ok((srv, msg)),
            None => Err(TestError::SrvNotSet),
        }
    }

    /// Asks the compositor to quit.
    pub fn quit(&self) -> (r: Result<(ServerData, ClientMessage), TestError>)
        ensures
            match self.srv {
                Some(srv) => r == Ok::<(ServerData, ClientMessage), TestError>(
                    (srv, ClientMessage::Quit),
                ),
                None => r == Err::<(ServerData, ClientMessage), TestError>(TestError::SrvNotSet),
            },
    {
        self.send(ClientMessage::Quit)
    }

    /// The end of the compositor that has to be given back when the configuration goes.
    pub fn take_srv(&mut self) -> (r: Option<ServerData>)
        ensures
            r == old(self).srv,
            final(self).srv is None,
    {
        self.srv.take()
    }
}

} // verus!
