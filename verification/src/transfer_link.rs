//! The way by which firmware reaches the sensor, with an account of what was
//! sent.
use std::time::Duration;
use vstd::prelude::*;

use crate::firmware::FirmwareTransferCommand;

verus! {

/// One command and its answer.
pub struct TransferExchange<E> {
    pub command: FirmwareTransferCommand,
    pub payload: Seq<u8>,
    pub timeout: Duration,
    pub reply: Result<Vec<u8>, E>,
}

/// A transport that is used through `send` alone, so that its history holds
/// every exchange made.
pub struct TransferLink<E, F> {
    transact: F,
    history: Ghost<Seq<TransferExchange<E>>>,
}

impl<E, F> TransferLink<E, F> where
    F: FnMut(FirmwareTransferCommand, &[u8], Duration) -> Result<Vec<u8>, E>,
 {
    /// The exchanges made so far, oldest first.
    pub closed spec fn history(&self) -> Seq<TransferExchange<E>> {
        self.history@
    }

    /// The transport as it is now.
    pub closed spec fn transport(&self) -> F {
        self.transact
    }

    pub fn new(transact: F) -> (link: Self)
        ensures
            link.history() == Seq::<TransferExchange<E>>::empty(),
            link.transport() == transact,
    {
        TransferLink { transact, history: Ghost(Seq::empty()) }
    }

    /// Makes one exchange.
    pub fn send(
        &mut self,
        command: FirmwareTransferCommand,
        payload: &[u8],
        timeout: Duration,
    ) -> (reply: Result<Vec<u8>, E>)
        requires
            call_requires(old(self).transport(), (command, payload, timeout)),
        ensures
            call_ensures(old(self).transport(), (command, payload, timeout), reply),
            final(self).history() == old(self).history().push(
                TransferExchange { command, payload: payload@, timeout, reply },
            ),
    {
        let reply: Result<Vec<u8>, E> = (self.transact)(command, payload, timeout);
        self.history = Ghost(
            self.history@.push(TransferExchange { command, payload: payload@, timeout, reply }),
        );
        reply
    }
}

} // verus!
