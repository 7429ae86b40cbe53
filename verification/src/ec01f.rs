//! The command driver for the radio module: sends command lines over the
//! byte transport it exclusively owns, and reads response records back,
//! accumulating bytes line by line into a bounded buffer and classifying
//! them with the response grammar.

use vstd::prelude::*;

use crate::at::{
    classify, drained, lemma_drained_extend, response, yields, Device, ParseOutcome, Response,
};
use crate::coap::CoAPClient;
use crate::linebuf::{buf_bytes, line_buf_new, line_buf_push, line_buf_slice};
use crate::transport::Transport;
use crate::utf8::{is_valid_utf8, validate_utf8};
use vstd::slice::slice_subrange;

verus! {

/// Everything a driver operation can fail with.  `Timeout` is reserved for
/// a future hardening of the blocking reads and is never raised today.
#[derive(Debug)]
pub enum Error<TE, RE> {
    /// A write into the transport failed.
    TxError(TE),
    /// A read from the transport failed.
    RxError(RE),
    /// Reserved: no operation raises this today.
    Timeout,
    /// A line outgrew the fixed buffer capacity before its newline.
    BufferFull,
    /// A received line is not valid text.
    InvalidUTF8,
    /// A received record matches no alternative of the grammar.
    ParseErr,
}

/// Seq plumbing: when `rx0 + b0` is a prefix of `rxn`, the tail of `rxn`
/// past `rx0` splits as `b0` followed by the tail past `rx0 + b0`.
proof fn lemma_delta_chain(rx0: Seq<u8>, b0: Seq<u8>, rxn: Seq<u8>)
    requires
        (rx0 + b0).is_prefix_of(rxn),
    ensures
        rxn.skip(rx0.len() as int) == b0 + rxn.skip(rx0.len() as int + b0.len() as int),
{
    let mid = rx0 + b0;
    assert(mid == rxn.subrange(0, mid.len() as int));
    assert forall|k: int|
        0 <= k < rxn.len() - rx0.len() implies rxn.skip(rx0.len() as int)[k] == (b0 + rxn.skip(
        rx0.len() as int + b0.len() as int,
    ))[k] by {
        if k < b0.len() {
            assert(rxn[rx0.len() + k] == rxn.subrange(0, mid.len() as int)[rx0.len() + k]);
            assert(mid[rx0.len() + k] == b0[k]);
        }
    }
    assert(rxn.skip(rx0.len() as int) =~= b0 + rxn.skip(rx0.len() as int + b0.len() as int));
}

/// The driver.  It owns the byte transport exclusively for its whole
/// lifetime, so no other component can interleave bytes with its
/// request/response cycles.
pub struct EC01F<T: Transport> {
    link: T,
}

impl<T: Transport> EC01F<T> {
    /// Build a driver over `link` and perform the fixed handshake: send the
    /// echo-disable command `ATE0`, then wait for its acknowledgement.  The
    /// driver is only ever observed in a post-handshake-success state.
    pub fn new(link: T) -> (r: Result<EC01F<T>, Error<T::TxError, T::RxError>>)
        ensures
            r matches Ok(d) ==> d.sent() == link.sent() + seq![65u8, 84u8, 69u8, 48u8, 10u8]
                && link.received().is_prefix_of(d.received()) && crate::at::awaited_okay(
                d.received().skip(link.received().len() as int),
            ),
    {
        let mut dev = EC01F { link };
        let cmd: [u8; 4] = [65, 84, 69, 48];
        match dev.write_cmd(cmd.as_slice()) {
            Result::Err(e) => {
                return Result::Err(e);
            },
            Result::Ok(()) => {},
        }
        proof {
            assert(cmd@ + seq![10u8] =~= seq![65u8, 84u8, 69u8, 48u8, 10u8]);
        }
        match dev.read_ok() {
            Result::Err(e) => {
                return Result::Err(e);
            },
            Result::Ok(()) => {},
        }
        Result::Ok(dev)
    }

    /// Read one byte from the transport, wrapping its fault.
    fn read_byte(&mut self) -> (r: Result<u8, Error<T::TxError, T::RxError>>)
        ensures
            final(self).link.sent() == old(self).link.sent(),
            r matches Ok(b) ==> final(self).link.received() == old(self).link.received().push(b)
                && final(self).link.fuel() < old(self).link.fuel(),
            r matches Err(e) ==> final(self).link.received() == old(self).link.received() && (
            e matches Error::RxError(_)) && final(self).link.fuel() <= old(self).link.fuel(),
    {
        match self.link.read_byte() {
            Result::Ok(c) => Result::Ok(c),
            Result::Err(e) => Result::Err(Error::RxError(e)),
        }
    }

    /// Accumulate bytes into `buffer` until a newline byte is appended.
    /// On success the appended stretch is one full line: its last byte is
    /// the only newline in it.  Fails with `BufferFull` when the capacity
    /// would be exceeded first (the offending byte is discarded), or with
    /// the transport's wrapped read fault.
    fn read_line(&mut self, buffer: &mut heapless::Vec<u8, 1024>) -> (r: Result<
        (),
        Error<T::TxError, T::RxError>,
    >)
        ensures
            final(self).link.sent() == old(self).link.sent(),
            final(self).link.fuel() <= old(self).link.fuel(),
            old(self).link.received().is_prefix_of(final(self).link.received()),
            ({
                let added = final(self).link.received().skip(
                    old(self).link.received().len() as int,
                );
                &&& (r is Ok ==> buf_bytes(*final(buffer)) == buf_bytes(*old(buffer)) + added
                    && added.len() >= 1 && added.last() == 10u8 && final(self).link.fuel() < old(
                    self,
                ).link.fuel())
                &&& (r matches Err(Error::RxError(_)) ==> buf_bytes(*final(buffer)) == buf_bytes(
                    *old(buffer),
                ) + added)
                &&& (r matches Err(Error::BufferFull) ==> added.len() >= 1 && buf_bytes(
                    *final(buffer),
                ) == buf_bytes(*old(buffer)) + added.drop_last() && buf_bytes(
                    *final(buffer),
                ).len() == 1024)
                &&& (r is Err ==> (r matches Err(Error::RxError(_))) || (
                r matches Err(Error::BufferFull)))
            }),
    {
        proof {
            assert(old(self).link.received() =~= old(self).link.received().subrange(
                0,
                old(self).link.received().len() as int,
            ));
            assert(buf_bytes(*buffer) + self.link.received().skip(
                old(self).link.received().len() as int,
            ) =~= buf_bytes(*buffer));
        }
        loop
            invariant
                self.link.sent() == old(self).link.sent(),
                self.link.fuel() <= old(self).link.fuel(),
                old(self).link.received().is_prefix_of(self.link.received()),
                buf_bytes(*buffer) == buf_bytes(*old(buffer)) + self.link.received().skip(
                    old(self).link.received().len() as int,
                ),
            decreases self.link.fuel(),
        {
            let ghost rx_mid = self.link.received();
            let c = match self.read_byte() {
                Result::Ok(c) => c,
                Result::Err(e) => {
                    return Result::Err(e);
                },
            };
            proof {
                assert(self.link.received().skip(old(self).link.received().len() as int)
                    =~= rx_mid.skip(old(self).link.received().len() as int) + seq![c]);
            }
            match line_buf_push(buffer, c) {
                Result::Err(_) => {
                    proof {
                        let added = self.link.received().skip(
                            old(self).link.received().len() as int,
                        );
                        assert(added.drop_last() =~= rx_mid.skip(
                            old(self).link.received().len() as int,
                        ));
                    }
                    return Result::Err(Error::BufferFull);
                },
                Result::Ok(()) => {},
            }
            if c == 10 {
                return Result::Ok(());
            }
        }
    }

    /// Hand the transport back, ending the driver's exclusive ownership.
    pub fn into_link(self) -> (r: T)
        ensures
            r.sent() == self.sent(),
            r.received() == self.received(),
            r.fuel() == self.fuel(),
    {
        self.link
    }

    /// Open a session for the fixed protocol service on the module.  The
    /// session takes the driver for its whole lifetime: no other command
    /// can be issued on this transport while the session is alive.
    pub fn create_coap(self) -> (r: CoAPClient<EC01F<T>>)
        ensures
            r.dev().received() == self.received(),
            r.dev().fuel() == self.fuel(),
            r.opened() ==> r.dev().sent() == self.sent() + crate::coap::setup_line(),
            !r.opened() ==> exists|p: Seq<u8>|
                #![auto]
                p.is_prefix_of(crate::coap::setup_line()) && r.dev().sent() == self.sent() + p,
    {
        CoAPClient::new(self)
    }
}

impl<T: Transport> Device for EC01F<T> {
    type Error = Error<T::TxError, T::RxError>;

    closed spec fn sent(&self) -> Seq<u8> {
        self.link.sent()
    }

    closed spec fn received(&self) -> Seq<u8> {
        self.link.received()
    }

    closed spec fn fuel(&self) -> nat {
        self.link.fuel()
    }

    /// Send the command text, then one newline byte, one byte at a time.
    fn write_cmd(&mut self, cmd: &[u8]) -> (r: Result<(), Error<T::TxError, T::RxError>>) {
        let ghost tx0 = self.link.sent();
        proof {
            assert(tx0 + cmd@.take(0) =~= tx0);
        }
        let mut i: usize = 0;
        while i < cmd.len()
            invariant
                i <= cmd@.len(),
                self.link.sent() == tx0 + cmd@.take(i as int),
                self.link.received() == old(self).link.received(),
                self.link.fuel() == old(self).link.fuel(),
                tx0 == old(self).link.sent(),
            decreases cmd@.len() - i,
        {
            match self.link.write_byte(cmd[i]) {
                Result::Ok(()) => {
                    proof {
                        assert((tx0 + cmd@.take(i as int)).push(cmd@[i as int]) =~= tx0
                            + cmd@.take(i + 1));
                    }
                    i += 1;
                },
                Result::Err(e) => {
                    proof {
                        assert(cmd@.take(i as int).is_prefix_of(cmd@ + seq![10u8])) by {
                            assert(cmd@.take(i as int) =~= (cmd@ + seq![10u8]).subrange(
                                0,
                                i as int,
                            ));
                        }
                        assert(self.sent() == old(self).sent() + cmd@.take(i as int));
                    }
                    return Result::Err(Error::TxError(e));
                },
            }
        }
        proof {
            assert(cmd@.take(cmd@.len() as int) =~= cmd@);
        }
        match self.link.write_byte(10) {
            Result::Ok(()) => {
                proof {
                    assert((tx0 + cmd@).push(10u8) =~= tx0 + cmd@ + seq![10u8]);
                }
                Result::Ok(())
            },
            Result::Err(e) => {
                proof {
                    assert(cmd@.is_prefix_of(cmd@ + seq![10u8])) by {
                        assert(cmd@ =~= (cmd@ + seq![10u8]).subrange(0, cmd@.len() as int));
                    }
                    assert(self.sent() == old(self).sent() + cmd@);
                }
                Result::Err(Error::TxError(e))
            },
        }
    }

    /// Read lines into a fresh bounded buffer, check each accumulation for
    /// text validity, classify it, consume empty records, and return the
    /// first decisive record.
    #[verifier::rlimit(100)]
    fn read_resp(&mut self) -> (r: Result<Response, Error<T::TxError, T::RxError>>)
        ensures
            r matches Err(e) ==> ({
                let app = final(self).received().skip(old(self).received().len() as int);
                match e {
                    Error::RxError(_) => true,
                    Error::BufferFull => app.len() > 1024,
                    Error::InvalidUTF8 => !is_valid_utf8(app),
                    Error::ParseErr => is_valid_utf8(app) && classify(drained(app))
                        is Invalid,
                    _ => false,
                }
            }),
    {
        let mut buffer = line_buf_new();
        let mut start: usize = 0;
        proof {
            assert(old(self).link.received() =~= old(self).link.received().subrange(
                0,
                old(self).link.received().len() as int,
            ));
            assert(old(self).link.received() + buf_bytes(buffer) =~= old(self).link.received());
            assert(buf_bytes(buffer).skip(0) =~= buf_bytes(buffer));
        }
        loop
            invariant
                self.link.sent() == old(self).link.sent(),
                self.link.fuel() <= old(self).link.fuel(),
                old(self).link.received().is_prefix_of(self.link.received()),
                self.link.received() == old(self).link.received() + buf_bytes(buffer),
                start <= buf_bytes(buffer).len(),
                buf_bytes(buffer).len() > 0 ==> self.link.fuel() < old(self).link.fuel(),
                drained(buf_bytes(buffer)) == drained(buf_bytes(buffer).skip(start as int)),
                is_valid_utf8(buf_bytes(buffer)),
            decreases self.link.fuel(), buf_bytes(buffer).len() - start,
        {
            let s = line_buf_slice(&buffer);
            let win = slice_subrange(s, start, s.len());
            proof {
                assert(win@ =~= buf_bytes(buffer).skip(start as int));
            }
            match response(win) {
                ParseOutcome::Found { resp: Response::Empty, used: _ } => {
                    proof {
                        let w = buf_bytes(buffer).skip(start as int);
                        assert(w.len() >= 2);
                        assert(w.skip(2) =~= buf_bytes(buffer).skip(start + 2));
                    }
                    start += 2;
                },
                ParseOutcome::Found { resp, used: _ } => {
                    proof {
                        let app = buf_bytes(buffer);
                        assert(self.link.received().skip(old(self).link.received().len() as int)
                            =~= app);
                        assert(drained(app.skip(start as int)) == app.skip(start as int));
                        assert(yields(app, resp));
                        assert(app.skip(start as int).len() >= 2);
                    }
                    return Result::Ok(resp);
                },
                ParseOutcome::Invalid => {
                    proof {
                        let app = buf_bytes(buffer);
                        assert(self.link.received().skip(old(self).link.received().len() as int)
                            =~= app);
                        assert(drained(app.skip(start as int)) == app.skip(start as int));
                    }
                    return Result::Err(Error::ParseErr);
                },
                ParseOutcome::Incomplete => {
                    let ghost b0 = buf_bytes(buffer);
                    let ghost rx_mid = self.link.received();
                    match self.read_line(&mut buffer) {
                        Result::Err(e) => {
                            proof {
                                let added = self.link.received().skip(rx_mid.len() as int);
                                lemma_delta_chain(
                                    old(self).link.received(),
                                    b0,
                                    self.link.received(),
                                );
                                assert(self.link.received().skip(
                                    old(self).link.received().len() as int,
                                ) == b0 + added);
                                if e is BufferFull {
                                    assert(b0 + added.drop_last() =~= (b0 + added).drop_last());
                                }
                            }
                            return Result::Err(e);
                        },
                        Result::Ok(()) => {
                            let ghost added = self.link.received().skip(rx_mid.len() as int);
                            proof {
                                lemma_delta_chain(
                                    old(self).link.received(),
                                    b0,
                                    self.link.received(),
                                );
                                assert(self.link.received().skip(
                                    old(self).link.received().len() as int,
                                ) == b0 + added);
                                assert(buf_bytes(buffer) == b0 + added);
                            }
                            let s2 = line_buf_slice(&buffer);
                            if !validate_utf8(s2) {
                                proof {
                                    assert(self.link.received().skip(
                                        old(self).link.received().len() as int,
                                    ) =~= buf_bytes(buffer));
                                }
                                return Result::Err(Error::InvalidUTF8);
                            }
                            proof {
                                lemma_drained_extend(b0, added);
                                lemma_drained_extend(b0.skip(start as int), added);
                                assert((b0 + added).skip(start as int) =~= b0.skip(start as int)
                                    + added);
                                assert(drained(buf_bytes(buffer)) == drained(
                                    buf_bytes(buffer).skip(start as int),
                                ));
                            }
                        },
                    }
                },
            }
        }
    }
}

} // verus!
