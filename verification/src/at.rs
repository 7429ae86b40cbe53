//! The response grammar: classifies accumulated received bytes into a typed
//! response record, in the fixed priority order `Okay`, `Error`, `CmeError`,
//! `Empty`.  A classification either finds a record (consuming a prefix of
//! the input), asks for more input, or rejects the input outright.

use vstd::prelude::*;

use crate::utf8::is_valid_utf8;

verus! {

/// One classified response record from the module.
#[derive(Clone, Copy, Debug, PartialEq, Eq, Structural)]
pub enum Response {
    /// A bare `<CR><LF>` record with no payload: carries no information.
    Empty,
    /// `<CR><LF>OK<CR><LF>`: the command succeeded.
    Okay,
    /// `<CR><LF>ERROR<CR><LF>`: the command failed with no detail.
    Error,
    /// `<CR><LF>+CME ERROR: <digits><CR><LF>`: failure with a numeric code.
    CmeError(i32),
}

/// The outcome of one classification attempt.
#[derive(Clone, Copy, Debug, PartialEq, Eq, Structural)]
pub enum ParseOutcome {
    /// A record was recognised; `used` bytes of the input were consumed.
    Found { resp: Response, used: usize },
    /// No record can be decided yet: more input is needed.
    Incomplete,
    /// The input matches no alternative of the grammar.
    Invalid,
}

/// The record terminator pair `<CR><LF>`.
pub open spec fn crlf() -> Seq<u8> {
    seq![13u8, 10u8]
}

/// The full success record `<CR><LF>OK<CR><LF>`.
pub open spec fn okay_tag() -> Seq<u8> {
    seq![13u8, 10u8, 79u8, 75u8, 13u8, 10u8]
}

/// The full failure record `<CR><LF>ERROR<CR><LF>`.
pub open spec fn error_tag() -> Seq<u8> {
    seq![13u8, 10u8, 69u8, 82u8, 82u8, 79u8, 82u8, 13u8, 10u8]
}

/// The head of a service-error record, `<CR><LF>+CME ERROR: `.
pub open spec fn cme_head() -> Seq<u8> {
    seq![13u8, 10u8, 43u8, 67u8, 77u8, 69u8, 32u8, 69u8, 82u8, 82u8, 79u8, 82u8, 58u8, 32u8]
}

/// The tag is fully present at the front of the input.
pub open spec fn tag_hit(s: Seq<u8>, tag: Seq<u8>) -> bool {
    tag.is_prefix_of(s)
}

/// The input ends before the tag can be decided either way.
pub open spec fn tag_more(s: Seq<u8>, tag: Seq<u8>) -> bool {
    s.len() < tag.len() && s.is_prefix_of(tag)
}

/// An ASCII decimal digit.
pub open spec fn is_digit(b: u8) -> bool {
    48 <= b <= 57
}

/// The index just past the run of digits starting at `i`.
pub open spec fn digit_span(s: Seq<u8>, i: int) -> int
    decreases s.len() - i,
{
    if 0 <= i < s.len() && is_digit(s[i]) {
        digit_span(s, i + 1)
    } else {
        i
    }
}

/// The value of a run of decimal digits, most significant first.
pub open spec fn dec_value(s: Seq<u8>) -> int
    decreases s.len(),
{
    if s.len() == 0 {
        0
    } else {
        dec_value(s.drop_last()) * 10 + (s.last() - 48)
    }
}

/// Classification of a service-error record whose head is already present.
pub open spec fn classify_cme(s: Seq<u8>) -> ParseOutcome {
    let j = digit_span(s, 14);
    if j == s.len() {
        // the digit run may continue: undecided
        ParseOutcome::Incomplete
    } else if j == 14 {
        // no digits at all: the alternative fails, the leading pair matches
        ParseOutcome::Found { resp: Response::Empty, used: 2 }
    } else if s[j] == 13 {
        if j + 1 == s.len() {
            ParseOutcome::Incomplete
        } else if s[j + 1] == 10 {
            if dec_value(s.subrange(14, j)) <= i32::MAX {
                ParseOutcome::Found {
                    resp: Response::CmeError(dec_value(s.subrange(14, j)) as i32),
                    used: (j + 2) as usize,
                }
            } else {
                // the number does not fit: the alternative fails
                ParseOutcome::Found { resp: Response::Empty, used: 2 }
            }
        } else {
            ParseOutcome::Found { resp: Response::Empty, used: 2 }
        }
    } else {
        ParseOutcome::Found { resp: Response::Empty, used: 2 }
    }
}

/// Classify the front of `s` against the grammar, attempting the
/// alternatives in the fixed priority order.  Each alternative either
/// matches, leaves the outcome undecided for want of input, or misses and
/// passes to the next.
pub open spec fn classify(s: Seq<u8>) -> ParseOutcome {
    if tag_hit(s, okay_tag()) {
        ParseOutcome::Found { resp: Response::Okay, used: 6 }
    } else if tag_more(s, okay_tag()) {
        ParseOutcome::Incomplete
    } else if tag_hit(s, error_tag()) {
        ParseOutcome::Found { resp: Response::Error, used: 9 }
    } else if tag_more(s, error_tag()) {
        ParseOutcome::Incomplete
    } else if tag_more(s, cme_head()) {
        ParseOutcome::Incomplete
    } else if tag_hit(s, cme_head()) {
        classify_cme(s)
    } else if tag_hit(s, crlf()) {
        ParseOutcome::Found { resp: Response::Empty, used: 2 }
    } else if tag_more(s, crlf()) {
        ParseOutcome::Incomplete
    } else {
        ParseOutcome::Invalid
    }
}

/// `s` with every leading empty record consumed.
pub open spec fn drained(s: Seq<u8>) -> Seq<u8>
    decreases s.len(),
{
    if s.len() >= 2 && classify(s) == (ParseOutcome::Found { resp: Response::Empty, used: 2 }) {
        drained(s.skip(2))
    } else {
        s
    }
}

/// After its leading empty records, `app` decides exactly the non-empty
/// record `resp`.
pub open spec fn yields(app: Seq<u8>, resp: Response) -> bool {
    match classify(drained(app)) {
        ParseOutcome::Found { resp: r, used: _ } => r == resp && !(resp is Empty),
        _ => false,
    }
}

/// `app` is what a wait for `Okay` consumes: zero or more decided records
/// that are not `Okay`, then one record that is.
#[verifier::opaque]
pub open spec fn awaited_okay(app: Seq<u8>) -> bool
    decreases app.len(),
{
    ||| yields(app, Response::Okay)
    ||| exists|m: int|
        1 <= m < app.len() && (yields(#[trigger] app.take(m), Response::Error) || (exists|c: i32|
            yields(app.take(m), Response::CmeError(c)))) && awaited_okay(app.skip(m))
}

/// A command/response endpoint: writes command lines into the module and
/// reads classified response records back.  The ghost logs `sent` and
/// `received` record the bytes that have crossed the endpoint; `fuel`
/// bounds the bytes the module can still deliver.
pub trait Device: Sized {
    /// The error type of the endpoint's operations.
    type Error;

    /// The bytes sent to the module so far, oldest first.
    spec fn sent(&self) -> Seq<u8>;

    /// The bytes consumed from the module so far, oldest first.
    spec fn received(&self) -> Seq<u8>;

    /// An upper bound on how many more bytes the module can deliver.
    spec fn fuel(&self) -> nat;

    /// Send one command line: the text, then a single newline byte.  No
    /// response is read.  On failure, some prefix of the line was sent.
    fn write_cmd(&mut self, cmd: &[u8]) -> (r: Result<(), Self::Error>)
        ensures
            final(self).received() == old(self).received(),
            final(self).fuel() == old(self).fuel(),
            r is Ok ==> final(self).sent() == old(self).sent() + cmd@ + seq![10u8],
            r is Err ==> exists|p: Seq<u8>|
                #![auto]
                p.is_prefix_of(cmd@ + seq![10u8]) && final(self).sent() == old(self).sent() + p,
    ;

    /// Read records until one carries information, and return it
    /// classified.  Empty records are consumed and never surfaced; the
    /// consumed bytes are valid text and, after their leading empty
    /// records, decide the returned record.
    fn read_resp(&mut self) -> (r: Result<Response, Self::Error>)
        ensures
            final(self).sent() == old(self).sent(),
            final(self).fuel() <= old(self).fuel(),
            old(self).received().is_prefix_of(final(self).received()),
            r matches Ok(resp) ==> !(resp is Empty) && yields(
                final(self).received().skip(old(self).received().len() as int),
                resp,
            ) && is_valid_utf8(final(self).received().skip(old(self).received().len() as int))
                && final(self).fuel() < old(self).fuel(),
    ;

    /// Wait until an `Okay` record is read, discarding every other decided
    /// record; any read error aborts the wait at once.
    #[verifier::rlimit(100)]
    fn read_ok(&mut self) -> (r: Result<(), Self::Error>)
        ensures
            final(self).sent() == old(self).sent(),
            final(self).fuel() <= old(self).fuel(),
            old(self).received().is_prefix_of(final(self).received()),
            r is Ok ==> awaited_okay(
                final(self).received().skip(old(self).received().len() as int),
            ),
    {
        proof {
            assert(old(self).received() =~= old(self).received().subrange(
                0,
                old(self).received().len() as int,
            ));
            assert forall|rest: Seq<u8>| #[trigger]
                awaited_okay(rest) implies awaited_okay(
                self.received().skip(old(self).received().len() as int) + rest,
            ) by {
                assert(self.received().skip(old(self).received().len() as int) + rest =~= rest);
            }
        }
        loop
            invariant
                self.sent() == old(self).sent(),
                self.fuel() <= old(self).fuel(),
                old(self).received().is_prefix_of(self.received()),
                forall|rest: Seq<u8>| #[trigger]
                    awaited_okay(rest) ==> awaited_okay(
                        self.received().skip(old(self).received().len() as int) + rest,
                    ),
            decreases self.fuel(),
        {
            let ghost rx_mid = self.received();
            let ghost d0 = rx_mid.skip(old(self).received().len() as int);
            match self.read_resp() {
                Result::Ok(resp) => {
                    let ghost c = self.received().skip(rx_mid.len() as int);
                    proof {
                        assert(self.received().skip(old(self).received().len() as int) =~= d0
                            + c);
                    }
                    match resp {
                        Response::Okay => {
                            proof {
                                reveal(awaited_okay);
                                assert(awaited_okay(c));
                                assert(awaited_okay(d0 + c));
                            }
                            return Result::Ok(());
                        },
                        _ => {
                            proof {
                                assert forall|rest: Seq<u8>| #[trigger]
                                    awaited_okay(rest) implies awaited_okay(
                                    (d0 + c) + rest,
                                ) by {
                                    lemma_await_step(c, rest, resp);
                                    assert((d0 + c) + rest =~= d0 + (c + rest));
                                    assert(awaited_okay(d0 + (c + rest)));
                                }
                            }
                        },
                    }
                },
                Result::Err(e) => {
                    return Result::Err(e);
                },
            }
        }
    }
}

/// How one tag compares against the front of the input.
enum TagScan {
    Hit,
    More,
    Miss,
}

/// Compare the front of `s` against `tag`.
fn scan_tag(s: &[u8], tag: &[u8]) -> (r: TagScan)
    ensures
        (r is Hit) == tag_hit(s@, tag@),
        (r is More) == tag_more(s@, tag@),
{
    let n: usize = if s.len() < tag.len() {
        s.len()
    } else {
        tag.len()
    };
    let mut i: usize = 0;
    while i < n
        invariant
            i <= n,
            n == if s@.len() < tag@.len() {
                s@.len()
            } else {
                tag@.len()
            },
            forall|k: int| 0 <= k < i ==> s@[k] == tag@[k],
        decreases n - i,
    {
        if s[i] != tag[i] {
            proof {
                if tag@.is_prefix_of(s@) {
                    assert(tag@[i as int] == s@.subrange(0, tag@.len() as int)[i as int]);
                }
                if s@.is_prefix_of(tag@) {
                    assert(s@[i as int] == tag@.subrange(0, s@.len() as int)[i as int]);
                }
            }
            return TagScan::Miss;
        }
        i += 1;
    }
    if s.len() >= tag.len() {
        proof {
            assert(tag@ =~= s@.subrange(0, tag@.len() as int));
        }
        TagScan::Hit
    } else {
        proof {
            assert(s@ =~= tag@.subrange(0, s@.len() as int));
        }
        TagScan::More
    }
}

/// Every byte of a digit run is a digit, so its value is not negative.
proof fn lemma_dec_value_nonneg(s: Seq<u8>)
    requires
        forall|i: int| 0 <= i < s.len() ==> is_digit(#[trigger] s[i]),
    ensures
        dec_value(s) >= 0,
    decreases s.len(),
{
    if s.len() > 0 {
        lemma_dec_value_nonneg(s.drop_last());
    }
}

/// Classify the tail of a service-error record whose head is present.
fn cme_tail(s: &[u8]) -> (r: ParseOutcome)
    requires
        tag_hit(s@, cme_head()),
    ensures
        r == classify_cme(s@),
{
    let mut j: usize = 14;
    let mut acc: u64 = 0;
    let mut over: bool = false;
    while j < s.len() && 48 <= s[j] && s[j] <= 57
        invariant
            14 <= j <= s@.len(),
            forall|k: int| 14 <= k < j ==> is_digit(#[trigger] s@[k]),
            digit_span(s@, 14) == digit_span(s@, j as int),
            over == (dec_value(s@.subrange(14, j as int)) > i32::MAX),
            !over ==> acc == dec_value(s@.subrange(14, j as int)),
        decreases s@.len() - j,
    {
        proof {
            assert(s@.subrange(14, j + 1).drop_last() =~= s@.subrange(14, j as int));
            assert(s@.subrange(14, j + 1).last() == s@[j as int]);
            lemma_dec_value_nonneg(s@.subrange(14, j as int));
        }
        let d: u64 = (s[j] - 48) as u64;
        if !over {
            acc = acc * 10 + d;
            if acc > 2147483647 {
                over = true;
            }
        }
        j += 1;
    }
    proof {
        // the digit run ends exactly at `j`
        assert(digit_span(s@, j as int) == j as int);
    }
    if j == s.len() {
        return ParseOutcome::Incomplete;
    }
    if j == 14 {
        return ParseOutcome::Found { resp: Response::Empty, used: 2 };
    }
    if s[j] == 13 {
        if j + 1 == s.len() {
            return ParseOutcome::Incomplete;
        }
        if s[j + 1] == 10 {
            if !over {
                return ParseOutcome::Found { resp: Response::CmeError(acc as i32), used: j + 2 };
            } else {
                return ParseOutcome::Found { resp: Response::Empty, used: 2 };
            }
        }
        return ParseOutcome::Found { resp: Response::Empty, used: 2 };
    }
    ParseOutcome::Found { resp: Response::Empty, used: 2 }
}

/// Classify the front of `input` against the grammar.
pub fn response(input: &[u8]) -> (r: ParseOutcome)
    ensures
        r == classify(input@),
{
    let okay_t: [u8; 6] = [13, 10, 79, 75, 13, 10];
    let error_t: [u8; 9] = [13, 10, 69, 82, 82, 79, 82, 13, 10];
    let cme_t: [u8; 14] = [13, 10, 43, 67, 77, 69, 32, 69, 82, 82, 79, 82, 58, 32];
    let crlf_t: [u8; 2] = [13, 10];
    proof {
        assert(okay_t@ =~= okay_tag());
        assert(error_t@ =~= error_tag());
        assert(cme_t@ =~= cme_head());
        assert(crlf_t@ =~= crlf());
    }
    match scan_tag(input, okay_t.as_slice()) {
        TagScan::Hit => ParseOutcome::Found { resp: Response::Okay, used: 6 },
        TagScan::More => ParseOutcome::Incomplete,
        TagScan::Miss => match scan_tag(input, error_t.as_slice()) {
            TagScan::Hit => ParseOutcome::Found { resp: Response::Error, used: 9 },
            TagScan::More => ParseOutcome::Incomplete,
            TagScan::Miss => match scan_tag(input, cme_t.as_slice()) {
                TagScan::More => ParseOutcome::Incomplete,
                TagScan::Hit => cme_tail(input),
                TagScan::Miss => match scan_tag(input, crlf_t.as_slice()) {
                    TagScan::Hit => ParseOutcome::Found { resp: Response::Empty, used: 2 },
                    TagScan::More => ParseOutcome::Incomplete,
                    TagScan::Miss => ParseOutcome::Invalid,
                },
            },
        },
    }
}

/// Law: classification is deterministic and idempotent -- it is a function
/// of the bytes alone, so reclassifying equal byte sequences always yields
/// equal outcomes.
pub proof fn lemma_classify_deterministic(a: Seq<u8>, b: Seq<u8>)
    requires
        a == b,
    ensures
        classify(a) == classify(b),
{
}

/// Law: the alternatives are attempted in the fixed priority order `Okay`,
/// `Error`, `CmeError`, `Empty`: an input carrying a full success or failure
/// record also begins with the empty record's terminator pair, yet resolves
/// to the higher-priority alternative, never to `Empty`.
pub proof fn lemma_priority_order(s: Seq<u8>)
    ensures
        tag_hit(s, okay_tag()) ==> tag_hit(s, crlf()) && classify(s) == (ParseOutcome::Found {
            resp: Response::Okay,
            used: 6,
        }),
        tag_hit(s, error_tag()) ==> tag_hit(s, crlf()) && classify(s) == (ParseOutcome::Found {
            resp: Response::Error,
            used: 9,
        }),
        (tag_hit(s, cme_head()) && (classify_cme(s) matches ParseOutcome::Found {
            resp: Response::CmeError(c),
            used: u,
        })) ==> tag_hit(s, crlf()) && classify(s) == classify_cme(s),
{
    if tag_hit(s, okay_tag()) {
        assert(s[0] == 13 && s[1] == 10 && s[2] == 79) by {
            assert(okay_tag() =~= s.subrange(0, 6));
        }
        assert(crlf() =~= s.subrange(0, 2));
    }
    if tag_hit(s, error_tag()) {
        assert(s[0] == 13 && s[1] == 10 && s[2] == 69) by {
            assert(error_tag() =~= s.subrange(0, 9));
        }
        assert(crlf() =~= s.subrange(0, 2));
        assert(!tag_hit(s, okay_tag())) by {
            if okay_tag().is_prefix_of(s) {
                assert(okay_tag()[2] == s.subrange(0, 6)[2]);
            }
        }
    }
    if tag_hit(s, cme_head()) {
        assert(s[0] == 13 && s[1] == 10 && s[2] == 43) by {
            assert(cme_head() =~= s.subrange(0, 14));
        }
        assert(crlf() =~= s.subrange(0, 2));
        assert(!tag_hit(s, okay_tag())) by {
            if okay_tag().is_prefix_of(s) {
                assert(okay_tag()[2] == s.subrange(0, 6)[2]);
            }
        }
        assert(!tag_more(s, okay_tag()) && !tag_more(s, error_tag()) && !tag_more(s, cme_head()));
        assert(!tag_hit(s, error_tag())) by {
            if error_tag().is_prefix_of(s) {
                assert(error_tag()[2] == s.subrange(0, 9)[2]);
            }
        }
    }
}

/// A tag comparison that has been decided (hit or miss) stays decided when
/// more input arrives.
proof fn lemma_tag_decided_extend(s: Seq<u8>, a: Seq<u8>, tag: Seq<u8>)
    requires
        !tag_more(s, tag),
    ensures
        tag_hit(s, tag) ==> tag_hit(s + a, tag),
        !tag_hit(s, tag) ==> !tag_hit(s + a, tag) && !tag_more(s + a, tag),
{
    if tag_hit(s, tag) {
        assert(tag =~= (s + a).subrange(0, tag.len() as int)) by {
            assert(tag =~= s.subrange(0, tag.len() as int));
        }
    } else {
        // neither sequence is a prefix of the other: they diverge at some index
        if !(exists|d: int| 0 <= d < s.len() && d < tag.len() && s[d] != tag[d]) {
            assert(forall|d: int| 0 <= d < s.len() && d < tag.len() ==> s[d] == #[trigger] tag[d]);
            if s.len() < tag.len() {
                assert(s =~= tag.subrange(0, s.len() as int));
            } else {
                assert(tag =~= s.subrange(0, tag.len() as int));
            }
            assert(false);
        }
        let d = choose|d: int| 0 <= d < s.len() && d < tag.len() && s[d] != tag[d];
        assert((s + a)[d] == s[d]);
        if tag.is_prefix_of(s + a) {
            assert(tag[d] == (s + a).subrange(0, tag.len() as int)[d]);
        }
        if (s + a).is_prefix_of(tag) {
            assert((s + a)[d] == tag.subrange(0, (s + a).len() as int)[d]);
        }
    }
}

/// The digit run's end does not move when more input arrives, provided the
/// run already ended inside the present input.
proof fn lemma_digit_span_extend(s: Seq<u8>, a: Seq<u8>, i: int)
    requires
        0 <= i,
        digit_span(s, i) < s.len(),
    ensures
        digit_span(s + a, i) == digit_span(s, i),
    decreases s.len() - i,
{
    if i < s.len() && is_digit(s[i]) {
        lemma_digit_span_extend(s, a, i + 1);
    } else {
        assert(digit_span(s, i) == i);
    }
}

/// The digit run starting at `i` ends between `i` and the end of the input.
proof fn lemma_digit_span_bounds(s: Seq<u8>, i: int)
    requires
        0 <= i <= s.len(),
    ensures
        i <= digit_span(s, i) <= s.len(),
    decreases s.len() - i,
{
    if i < s.len() && is_digit(s[i]) {
        lemma_digit_span_bounds(s, i + 1);
    }
}

/// A decided classification stays decided when more input arrives.
pub proof fn lemma_found_stable(s: Seq<u8>, a: Seq<u8>)
    requires
        classify(s) matches ParseOutcome::Found { .. },
    ensures
        classify(s + a) == classify(s),
{
    if tag_hit(s, okay_tag()) {
        lemma_tag_decided_extend(s, a, okay_tag());
    } else {
        lemma_tag_decided_extend(s, a, okay_tag());
        if tag_hit(s, error_tag()) {
            lemma_tag_decided_extend(s, a, error_tag());
        } else {
            lemma_tag_decided_extend(s, a, error_tag());
            if tag_hit(s, cme_head()) {
                lemma_tag_decided_extend(s, a, cme_head());
                let j = digit_span(s, 14);
                lemma_digit_span_bounds(s, 14);
                assert(j < s.len());
                lemma_digit_span_extend(s, a, 14);
                assert((s + a)[j] == s[j]);
                if j != 14 && s[j] == 13 {
                    assert(j + 1 < s.len());
                    assert((s + a)[j + 1] == s[j + 1]);
                    assert((s + a).subrange(14, j) =~= s.subrange(14, j));
                }
            } else {
                lemma_tag_decided_extend(s, a, cme_head());
                lemma_tag_decided_extend(s, a, crlf());
            }
        }
    }
}

/// Draining leading empty records never lengthens the input.
pub proof fn lemma_drained_len(s: Seq<u8>)
    ensures
        drained(s).len() <= s.len(),
    decreases s.len(),
{
    if s.len() >= 2 && classify(s) == (ParseOutcome::Found { resp: Response::Empty, used: 2 }) {
        lemma_drained_len(s.skip(2));
    }
}

/// Draining commutes with the arrival of more input: the empty records
/// already consumed stay consumed.
pub proof fn lemma_drained_extend(s: Seq<u8>, a: Seq<u8>)
    ensures
        drained(s + a) == drained(drained(s) + a),
    decreases s.len(),
{
    if s.len() >= 2 && classify(s) == (ParseOutcome::Found { resp: Response::Empty, used: 2 }) {
        lemma_found_stable(s, a);
        assert((s + a).skip(2) =~= s.skip(2) + a);
        lemma_drained_extend(s.skip(2), a);
    }
}

/// A stretch of bytes that decides a non-empty record holds at least one
/// full terminator pair.
pub proof fn lemma_yields_min_len(app: Seq<u8>, resp: Response)
    requires
        yields(app, resp),
    ensures
        app.len() >= 2,
{
    lemma_drained_len(app);
}

/// A successful wait consumed at least one full record.
pub proof fn lemma_awaited_min_len(s: Seq<u8>)
    requires
        awaited_okay(s),
    ensures
        s.len() >= 2,
{
    reveal(awaited_okay);
    if yields(s, Response::Okay) {
        lemma_yields_min_len(s, Response::Okay);
    }
}

/// Law: a wait that consumes one decided non-`Okay`, non-empty record and
/// then succeeds is itself a successful wait.
pub proof fn lemma_await_step(c: Seq<u8>, rest: Seq<u8>, resp: Response)
    requires
        yields(c, resp),
        !(resp is Okay),
        awaited_okay(rest),
    ensures
        awaited_okay(c + rest),
{
    reveal(awaited_okay);
    lemma_yields_min_len(c, resp);
    lemma_awaited_min_len(rest);
    let m = c.len() as int;
    assert((c + rest).take(m) =~= c);
    assert((c + rest).skip(m) =~= rest);
    assert(1 <= m < (c + rest).len());
    if resp is Error {
        assert(yields((c + rest).take(m), Response::Error));
    } else {
        if let Response::CmeError(v) = resp {
            assert(yields((c + rest).take(m), Response::CmeError(v)));
        }
    }
}

} // verus!
