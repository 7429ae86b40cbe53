//! The display's hardware interface: push-pull output pins, the busy input
//! pin, a write-only SPI bus, and a microsecond delay source -- each as a
//! small trait with a ghost model, together with simulated implementations.

use vstd::prelude::*;

verus! {

/// A push-pull output pin; `level` is true when the pin is high.
pub trait OutPin: Sized {
    /// The pin's present level.
    spec fn level(&self) -> bool;

    /// Drive the pin high.
    fn set_high(&mut self)
        ensures
            final(self).level(),
    ;

    /// Drive the pin low.
    fn set_low(&mut self)
        ensures
            !final(self).level(),
    ;
}

/// An input pin that is polled until it reads low.  `settle` bounds how
/// many more times the pin can still read high, so every wait on it is
/// provably finite.
pub trait InPin: Sized {
    /// An upper bound on how many more times the pin can read high.
    spec fn settle(&self) -> nat;

    /// Sample the pin.
    fn is_high(&mut self) -> (r: bool)
        ensures
            r ==> final(self).settle() < old(self).settle(),
            !r ==> final(self).settle() <= old(self).settle(),
    ;
}

/// A write-only SPI bus; `written` is every byte shifted out so far.
pub trait SpiBus: Sized {
    /// The fault type of a failed bus write.
    type Error;

    /// The bytes shifted out so far, oldest first.
    spec fn written(&self) -> Seq<u8>;

    /// Shift out `data`, blocking until done.  On a fault, some prefix of
    /// `data` may have been shifted out.
    fn write(&mut self, data: &[u8]) -> (r: Result<(), Self::Error>)
        ensures
            r is Ok ==> final(self).written() == old(self).written() + data@,
            r is Err ==> old(self).written().is_prefix_of(final(self).written()),
    ;
}

/// A blocking microsecond delay source.
pub trait DelayUs: Sized {
    /// Block for at least `us` microseconds.
    fn delay_us(&mut self, us: u8);
}

/// A simulated output pin.
pub struct SimPin {
    high: bool,
}

impl SimPin {
    /// A pin at the given initial level.
    pub fn new(high: bool) -> (r: SimPin)
        ensures
            r.level() == high,
    {
        SimPin { high }
    }
}

impl OutPin for SimPin {
    closed spec fn level(&self) -> bool {
        self.high
    }

    fn set_high(&mut self) {
        self.high = true;
    }

    fn set_low(&mut self) {
        self.high = false;
    }
}

/// A simulated busy pin: reads high the given number of times, then low.
pub struct SimBusy {
    remaining: u32,
}

impl SimBusy {
    /// A pin that reads high `n` more times.
    pub fn new(n: u32) -> (r: SimBusy)
        ensures
            r.settle() == n,
    {
        SimBusy { remaining: n }
    }
}

impl InPin for SimBusy {
    closed spec fn settle(&self) -> nat {
        self.remaining as nat
    }

    fn is_high(&mut self) -> (r: bool) {
        if self.remaining > 0 {
            self.remaining = self.remaining - 1;
            true
        } else {
            false
        }
    }
}

/// The simulated bus's fault: never raised.
#[derive(Debug)]
pub struct SpiFault;

/// A simulated SPI bus that logs every byte.
pub struct SimSpi {
    log: Vec<u8>,
}

impl SimSpi {
    /// A bus with an empty log.
    pub fn new() -> (r: SimSpi)
        ensures
            r.written() == Seq::<u8>::empty(),
    {
        SimSpi { log: Vec::new() }
    }

    /// The bytes shifted out so far.
    pub fn written_bytes(&self) -> (r: &Vec<u8>)
        ensures
            r@ == self.written(),
    {
        &self.log
    }
}

impl SpiBus for SimSpi {
    type Error = SpiFault;

    closed spec fn written(&self) -> Seq<u8> {
        self.log@
    }

    fn write(&mut self, data: &[u8]) -> (r: Result<(), SpiFault>) {
        let mut i: usize = 0;
        proof {
            assert(self.log@ + data@.take(0) =~= self.log@);
        }
        while i < data.len()
            invariant
                i <= data@.len(),
                self.log@ == old(self).log@ + data@.take(i as int),
            decreases data@.len() - i,
        {
            let b = data[i];
            self.log.push(b);
            proof {
                assert((old(self).log@ + data@.take(i as int)).push(b) =~= old(self).log@
                    + data@.take(i + 1));
            }
            i += 1;
        }
        proof {
            assert(data@.take(data@.len() as int) =~= data@);
        }
        Result::Ok(())
    }
}

/// A simulated delay source that returns at once.
pub struct SimDelay {
    ticks: u64,
}

impl SimDelay {
    /// A fresh delay source.
    pub fn new() -> (r: SimDelay) {
        SimDelay { ticks: 0 }
    }
}

impl DelayUs for SimDelay {
    fn delay_us(&mut self, us: u8) {
        if self.ticks <= u64::MAX - us as u64 {
            self.ticks = self.ticks + us as u64;
        }
    }
}

} // verus!
