//! A simulated byte transport: delivers a fixed feed of bytes one at a
//! time and logs everything written into it.  Reads past the end of the
//! feed fail, as does every write once the transmit side is marked down.

use vstd::prelude::*;

use crate::transport::Transport;

verus! {

/// The simulated channel's fault: nothing more to say than that it failed.
#[derive(Debug)]
pub struct SimFault;

/// A simulated duplex byte channel.
pub struct SimTransport {
    feed: Vec<u8>,
    taken: usize,
    log: Vec<u8>,
    tx_down: bool,
}

impl SimTransport {
    /// A channel that will deliver `feed` and accept every write.
    pub fn new(feed: Vec<u8>) -> (r: SimTransport)
        ensures
            r.sent() == Seq::<u8>::empty(),
            r.received() == Seq::<u8>::empty(),
            r.fuel() == feed@.len(),
    {
        let r = SimTransport { feed, taken: 0, log: Vec::new(), tx_down: false };
        proof {
            assert(r.received() =~= Seq::<u8>::empty());
        }
        r
    }

    /// A channel that will deliver `feed` but fail every write.
    pub fn with_tx_down(feed: Vec<u8>) -> (r: SimTransport)
        ensures
            r.sent() == Seq::<u8>::empty(),
            r.received() == Seq::<u8>::empty(),
            r.fuel() == feed@.len(),
    {
        let r = SimTransport { feed, taken: 0, log: Vec::new(), tx_down: true };
        proof {
            assert(r.received() =~= Seq::<u8>::empty());
        }
        r
    }

    /// The bytes written into the channel so far.
    pub fn sent_bytes(&self) -> (r: &Vec<u8>)
        ensures
            r@ == self.sent(),
    {
        &self.log
    }

}

impl Transport for SimTransport {
    type TxError = SimFault;

    type RxError = SimFault;

    closed spec fn sent(&self) -> Seq<u8> {
        self.log@
    }

    closed spec fn received(&self) -> Seq<u8> {
        if self.taken <= self.feed@.len() {
            self.feed@.take(self.taken as int)
        } else {
            self.feed@
        }
    }

    closed spec fn fuel(&self) -> nat {
        if self.taken <= self.feed@.len() {
            (self.feed@.len() - self.taken) as nat
        } else {
            0
        }
    }

    fn write_byte(&mut self, b: u8) -> (r: Result<(), SimFault>) {
        if self.tx_down {
            Result::Err(SimFault)
        } else {
            self.log.push(b);
            Result::Ok(())
        }
    }

    fn read_byte(&mut self) -> (r: Result<u8, SimFault>) {
        if self.taken < self.feed.len() {
            let b = self.feed[self.taken];
            self.taken = self.taken + 1;
            proof {
                assert(self.feed@.take(self.taken as int) =~= old(self).feed@.take(
                    old(self).taken as int,
                ).push(b));
            }
            Result::Ok(b)
        } else {
            Result::Err(SimFault)
        }
    }
}

} // verus!
