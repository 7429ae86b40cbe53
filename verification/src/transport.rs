//! The byte transport: a duplex channel carrying command and response lines.
//!
//! The channel is modelled by three ghost quantities: the bytes written into
//! it so far (`sent`), the bytes it has delivered so far (`received`), and a
//! bound on how many more bytes it can still deliver (`fuel`).  The bound
//! makes every read loop in the driver provably finite: a peer that stops
//! producing bytes surfaces as a read error once the bound is exhausted.

use vstd::prelude::*;

verus! {

/// A blocking duplex byte channel.  Writing and reading one byte each block
/// until the byte completes or the channel reports a fault.
pub trait Transport: Sized {
    /// The fault type for failed writes.
    type TxError;
    /// The fault type for failed reads.
    type RxError;

    /// The bytes written into the channel so far, oldest first.
    spec fn sent(&self) -> Seq<u8>;

    /// The bytes the channel has delivered so far, oldest first.
    spec fn received(&self) -> Seq<u8>;

    /// An upper bound on how many more bytes the channel can deliver.
    spec fn fuel(&self) -> nat;

    /// Write one byte, blocking until it completes or faults.
    fn write_byte(&mut self, b: u8) -> (r: Result<(), Self::TxError>)
        ensures
            final(self).received() == old(self).received(),
            final(self).fuel() == old(self).fuel(),
            r is Ok ==> final(self).sent() == old(self).sent().push(b),
            r is Err ==> final(self).sent() == old(self).sent(),
    ;

    /// Read one byte, blocking until one arrives or the channel faults.
    fn read_byte(&mut self) -> (r: Result<u8, Self::RxError>)
        ensures
            final(self).sent() == old(self).sent(),
            r matches Ok(b) ==> final(self).received() == old(self).received().push(b)
                && final(self).fuel() < old(self).fuel(),
            r is Err ==> final(self).received() == old(self).received()
                && final(self).fuel() <= old(self).fuel(),
    ;
}

} // verus!
