//! The session resource: a scoped handle for the protocol service opened on
//! the module.  Opening sends the setup command for the fixed service port;
//! releasing sends the teardown command and attempts exactly one
//! acknowledgement read, discarding any teardown failure.
//!
//! The handle takes the command endpoint by value for its whole lifetime,
//! so no other command can be issued on the same transport while the
//! session is alive; `close` hands the endpoint back.

use vstd::prelude::*;

use crate::at::Device;

verus! {

/// The setup command line as sent, newline included: it names the fixed
/// service port of the protocol service.
pub open spec fn setup_line() -> Seq<u8> {
    seq![
        65u8,
        84u8,
        43u8,
        67u8,
        79u8,
        65u8,
        80u8,
        67u8,
        82u8,
        69u8,
        65u8,
        84u8,
        69u8,
        61u8,
        53u8,
        54u8,
        56u8,
        51u8,
        10u8,
    ]
}

/// The teardown command line as sent, newline included.
pub open spec fn teardown_line() -> Seq<u8> {
    seq![65u8, 84u8, 43u8, 67u8, 79u8, 65u8, 80u8, 68u8, 69u8, 76u8, 10u8]
}

/// A live session on the module.  Single use: `Uninitialized -> Open` on
/// construction, `Open -> Closed` on `close`, never back.
pub struct CoAPClient<D: Device> {
    device: D,
    opened: bool,
}

impl<D: Device> CoAPClient<D> {
    /// The endpoint the session holds.
    pub closed spec fn dev(&self) -> D {
        self.device
    }

    /// Whether the setup command went out in full.
    pub closed spec fn opened(&self) -> bool {
        self.opened
    }

    /// Open the session: send the setup command for the fixed service port.
    /// The send is fire-and-forget: no acknowledgement is read here, and a
    /// send fault leaves the handle marked unopened.
    pub fn new(device: D) -> (r: CoAPClient<D>)
        ensures
            r.dev().received() == device.received(),
            r.dev().fuel() == device.fuel(),
            r.opened() ==> r.dev().sent() == device.sent() + setup_line(),
            !r.opened() ==> exists|p: Seq<u8>|
                #![auto]
                p.is_prefix_of(setup_line()) && r.dev().sent() == device.sent() + p,
    {
        let mut device = device;
        let cmd: [u8; 18] = [65, 84, 43, 67, 79, 65, 80, 67, 82, 69, 65, 84, 69, 61, 53, 54, 56, 51];
        proof {
            assert(cmd@ + seq![10u8] =~= setup_line());
        }
        let opened = match device.write_cmd(cmd.as_slice()) {
            Result::Ok(()) => true,
            Result::Err(_) => false,
        };
        CoAPClient { device, opened }
    }

    /// Whether the setup command went out in full.
    pub fn is_open(&self) -> (r: bool)
        ensures
            r == self.opened(),
    {
        self.opened
    }

    /// Release the session: send the teardown command and, if it went out
    /// in full, attempt exactly one acknowledgement read.  Every teardown
    /// failure is discarded; the endpoint is handed back regardless.
    pub fn close(self) -> (r: D)
        ensures
            self.dev().received().is_prefix_of(r.received()),
            exists|p: Seq<u8>|
                #![auto]
                p.is_prefix_of(teardown_line()) && r.sent() == self.dev().sent() + p,
            r.sent() != self.dev().sent() + teardown_line() ==> r.received() == self.dev().received(),
    {
        let CoAPClient { device: dev_in, opened: _ } = self;
        let mut device = dev_in;
        let cmd: [u8; 10] = [65, 84, 43, 67, 79, 65, 80, 68, 69, 76];
        proof {
            assert(cmd@ + seq![10u8] =~= teardown_line());
            assert(device.received() =~= device.received().subrange(
                0,
                device.received().len() as int,
            ));
        }
        proof {
            assert(teardown_line().is_prefix_of(teardown_line())) by {
                assert(teardown_line() =~= teardown_line().subrange(
                    0,
                    teardown_line().len() as int,
                ));
            }
        }
        match device.write_cmd(cmd.as_slice()) {
            Result::Ok(()) => {
                proof {
                    assert(device.sent() == self.dev().sent() + teardown_line());
                }
                let _ = device.read_resp();
                proof {
                    assert(device.sent() == self.dev().sent() + teardown_line());
                }
            },
            Result::Err(_) => {
                proof {
                    let p0 = choose|p: Seq<u8>|
                        #![auto]
                        p.is_prefix_of(cmd@ + seq![10u8]) && device.sent() == self.dev().sent()
                            + p;
                    assert(p0.is_prefix_of(teardown_line()) && device.sent() == self.dev().sent()
                        + p0);
                }
            },
        }
        device
    }
}

} // verus!
