//! Behaviour of the response grammar, the command driver and the session
//! resource, exercised over the simulated transport.

use longan_drivers::{
    CoAPClient, Device, Error, ParseOutcome, Response, SimTransport, EC01F,
};

/// One full handshake acknowledgement, as the module would send it.
const ACK: &[u8] = b"\r\nOK\r\n";

fn feed(extra: &[u8]) -> Vec<u8> {
    let mut v = ACK.to_vec();
    v.extend_from_slice(extra);
    v
}

fn driver_with(extra: &[u8]) -> EC01F<SimTransport> {
    EC01F::new(SimTransport::new(feed(extra))).expect("handshake must succeed")
}

#[test]
fn classification_is_deterministic() {
    let line = b"\r\n+CME ERROR: 7\r\n";
    let first = longan_drivers::response(line);
    let second = longan_drivers::response(line);
    assert_eq!(first, second);
    assert_eq!(first, ParseOutcome::Found { resp: Response::CmeError(7), used: 17 });
}

#[test]
fn priority_resolves_okay_before_empty() {
    // the input satisfies both the success pattern and the empty record's
    // leading pair; the fixed order picks the success record
    let r = longan_drivers::response(b"\r\nOK\r\n");
    assert_eq!(r, ParseOutcome::Found { resp: Response::Okay, used: 6 });
    let r = longan_drivers::response(b"\r\nERROR\r\n");
    assert_eq!(r, ParseOutcome::Found { resp: Response::Error, used: 9 });
}

#[test]
fn lone_terminator_waits_for_more() {
    assert_eq!(longan_drivers::response(b""), ParseOutcome::Incomplete);
    assert_eq!(longan_drivers::response(b"\r"), ParseOutcome::Incomplete);
    assert_eq!(longan_drivers::response(b"\r\n"), ParseOutcome::Incomplete);
}

#[test]
fn unmatched_input_is_rejected() {
    assert_eq!(longan_drivers::response(b"OK\r\n"), ParseOutcome::Invalid);
    assert_eq!(longan_drivers::response(b"x"), ParseOutcome::Invalid);
}

#[test]
fn handshake_sends_echo_disable() {
    let dev = driver_with(b"");
    let sim = dev.into_link();
    assert_eq!(sim.sent_bytes().as_slice(), b"ATE0\n");
}

#[test]
fn empty_records_are_never_surfaced() {
    // an empty record, then a success record: the caller sees only `Okay`
    let mut dev = driver_with(b"\r\n\r\nOK\r\n");
    let r = dev.read_resp().expect("a decisive record follows");
    assert!(matches!(r, Response::Okay));
}

#[test]
fn generic_error_record_is_classified() {
    let mut dev = driver_with(b"\r\nERROR\r\n");
    let r = dev.read_resp().expect("a decisive record follows");
    assert!(matches!(r, Response::Error));
}

#[test]
fn service_error_code_is_extracted() {
    let mut dev = driver_with(b"\r\n+CME ERROR: 42\r\n");
    let r = dev.read_resp().expect("a decisive record follows");
    assert!(matches!(r, Response::CmeError(42)));
}

#[test]
fn service_error_without_digits_fails_to_parse() {
    let mut dev = driver_with(b"\r\n+CME ERROR: \r\n");
    let r = dev.read_resp();
    assert!(matches!(r, Err(Error::ParseErr)));
}

#[test]
fn service_error_code_too_large_fails_to_parse() {
    let mut dev = driver_with(b"\r\n+CME ERROR: 99999999999\r\n");
    let r = dev.read_resp();
    assert!(matches!(r, Err(Error::ParseErr)));
}

#[test]
fn overlong_line_fails_with_buffer_full() {
    // more bytes than the buffer holds, and no newline among them
    let mut long = Vec::new();
    for _ in 0..1100 {
        long.push(b'A');
    }
    let mut dev = driver_with(&long);
    let r = dev.read_resp();
    assert!(matches!(r, Err(Error::BufferFull)));
}

#[test]
fn invalid_text_fails_before_classification() {
    let mut dev = driver_with(&[0xFF, 0xFE, b'\n']);
    let r = dev.read_resp();
    assert!(matches!(r, Err(Error::InvalidUTF8)));
}

#[test]
fn exhausted_transport_surfaces_read_fault() {
    // nothing to read at all: the handshake's wait fails
    let r = EC01F::new(SimTransport::new(b"ATE0-echo-missing".to_vec()));
    assert!(matches!(r, Err(Error::RxError(_))));
}

#[test]
fn broken_transmit_surfaces_write_fault() {
    let r = EC01F::new(SimTransport::with_tx_down(ACK.to_vec()));
    assert!(matches!(r, Err(Error::TxError(_))));
}

#[test]
fn await_okay_discards_failure_records() {
    // the handshake wait skips an ERROR and a service error before OK
    let mut v = b"\r\nERROR\r\n\r\n+CME ERROR: 3\r\n".to_vec();
    v.extend_from_slice(ACK);
    let dev = EC01F::new(SimTransport::new(v)).expect("an Okay record arrives in the end");
    let sim = dev.into_link();
    assert_eq!(sim.sent_bytes().as_slice(), b"ATE0\n");
}

#[test]
fn session_sends_setup_and_teardown() {
    // handshake ack, then the teardown acknowledgement
    let dev = driver_with(b"\r\nOK\r\n");
    let session = dev.create_coap();
    assert!(session.is_open());
    let dev = session.close();
    let sim = dev.into_link();
    assert_eq!(
        sim.sent_bytes().as_slice(),
        b"ATE0\nAT+COAPCREATE=5683\nAT+COAPDEL\n" as &[u8]
    );
}

#[test]
fn session_teardown_failure_is_swallowed() {
    // no acknowledgement for the teardown read: close still returns
    let dev = driver_with(b"");
    let session = CoAPClient::new(dev);
    assert!(session.is_open());
    let dev = session.close();
    let sim = dev.into_link();
    assert_eq!(
        sim.sent_bytes().as_slice(),
        b"ATE0\nAT+COAPCREATE=5683\nAT+COAPDEL\n" as &[u8]
    );
}
