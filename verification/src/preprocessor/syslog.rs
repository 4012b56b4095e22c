//! Octet-counting framing for syslog over a stream transport.
//!
//! A stream is a run of records `LEN SP BODY`, where `LEN` is the length of
//! `BODY` in decimal digits. Chunks may cut a record anywhere; the decoder keeps
//! what it needs of an unfinished record between calls.

use vstd::prelude::*;

verus! {

/// Why a byte stream is not a run of length-prefixed records.
#[derive(Clone, Copy, Debug, PartialEq, Eq)]
pub enum FrameError {
    /// A space came where the first digit of a length was due.
    EmptyFrameSize,
    /// The length field holds this byte, which is neither a digit nor the space.
    InvalidFrameSize(u8),
    /// The length does not fit the machine's address space.
    FrameSizeOverflow,
}

/// Where the decoder stands inside a record.
pub enum Framing {
    /// Reading the length; `None` until its first digit came.
    Size(Option<nat>),
    /// Reading the body: `remaining` bytes are due after `partial`.
    Body { remaining: nat, partial: Seq<u8> },
}

/// What one byte does to the decoder.
pub enum Step {
    /// The record goes on.
    Next(Framing),
    /// The byte ended a record with this body.
    Frame(Seq<u8>),
    /// The byte cannot stand here.
    Fail(FrameError),
}

/// What a run of bytes does to the decoder: the bodies it completed, in order,
/// where the decoder stands after the last byte taken, and the error that
/// stopped it, if one did.
pub struct Fed {
    pub frames: Seq<Seq<u8>>,
    pub state: Framing,
    pub error: Option<FrameError>,
}

pub open spec fn is_digit(b: u8) -> bool {
    0x30 <= b <= 0x39
}

pub open spec fn start() -> Framing {
    Framing::Size(None)
}

pub open spec fn step(s: Framing, b: u8) -> Step {
    match s {
        Framing::Size(v) => {
            if is_digit(b) {
                let n = (match v { Some(n) => n, None => 0nat }) * 10 + (b - 0x30) as nat;
                if n > usize::MAX {
                    Step::Fail(FrameError::FrameSizeOverflow)
                } else {
                    Step::Next(Framing::Size(Some(n)))
                }
            } else if b == 0x20 {
                match v {
                    None => Step::Fail(FrameError::EmptyFrameSize),
                    Some(n) => if n == 0 {
                        Step::Frame(Seq::empty())
                    } else {
                        Step::Next(Framing::Body { remaining: n, partial: Seq::empty() })
                    },
                }
            } else {
                Step::Fail(FrameError::InvalidFrameSize(b))
            }
        },
        Framing::Body { remaining, partial } => {
            if remaining <= 1 {
                Step::Frame(partial.push(b))
            } else {
                Step::Next(Framing::Body { remaining: (remaining - 1) as nat, partial: partial.push(b) })
            }
        },
    }
}

/// Feeds `data` to a decoder that stands at `s`. After an error the decoder
/// stands at the start of a record and the rest of `data` is left unread.
pub open spec fn feed(s: Framing, data: Seq<u8>) -> Fed
    decreases data.len(),
{
    if data.len() == 0 {
        Fed { frames: Seq::empty(), state: s, error: None }
    } else {
        match step(s, data[0]) {
            Step::Fail(e) => Fed { frames: Seq::empty(), state: start(), error: Some(e) },
            Step::Next(t) => feed(t, data.drop_first()),
            Step::Frame(f) => {
                let rest = feed(start(), data.drop_first());
                Fed { frames: seq![f] + rest.frames, state: rest.state, error: rest.error }
            },
        }
    }
}

/// How a stream is cut into chunks does not matter: feeding `a` and then `b`
/// completes the same bodies, in the same order, and leaves the decoder where
/// feeding `a` and `b` in one piece does. An error in `a` ends both the same
/// way.
pub proof fn chunks_do_not_matter(s: Framing, a: Seq<u8>, b: Seq<u8>)
    ensures
        match feed(s, a).error {
            Some(e) => feed(s, a + b) == feed(s, a),
            None => {
                &&& feed(s, a + b).frames == feed(s, a).frames + feed(feed(s, a).state, b).frames
                &&& feed(s, a + b).state == feed(feed(s, a).state, b).state
                &&& feed(s, a + b).error == feed(feed(s, a).state, b).error
            },
        },
    decreases a.len(),
{
    if a.len() == 0 {
        assert(a + b =~= b);
        assert(Seq::<Seq<u8>>::empty() + feed(s, b).frames =~= feed(s, b).frames);
    } else {
        assert((a + b)[0] == a[0]);
        assert((a + b).drop_first() =~= a.drop_first() + b);
        match step(s, a[0]) {
            Step::Fail(e) => {},
            Step::Next(t) => {
                chunks_do_not_matter(t, a.drop_first(), b);
            },
            Step::Frame(f) => {
                chunks_do_not_matter(start(), a.drop_first(), b);
                let rest = feed(start(), a.drop_first());
                if rest.error.is_none() {
                    assert((seq![f] + rest.frames) + feed(rest.state, b).frames =~= seq![f] + (
                    rest.frames + feed(rest.state, b).frames));
                }
            },
        }
    }
}

/// The decimal digits of `n`, without leading zeros.
pub open spec fn digits(n: nat) -> Seq<u8>
    decreases n,
{
    if n < 10 {
        seq![(0x30 + n) as u8]
    } else {
        digits(n / 10).push((0x30 + n % 10) as u8)
    }
}

/// The record that carries `body`: its length in digits, a space, and the
/// body.
pub open spec fn record(body: Seq<u8>) -> Seq<u8> {
    digits(body.len()) + seq![0x20u8] + body
}

/// The stream that carries `bodies`: their records, one after the other.
pub open spec fn stream(bodies: Seq<Seq<u8>>) -> Seq<u8>
    decreases bodies.len(),
{
    if bodies.len() == 0 {
        Seq::empty()
    } else {
        record(bodies[0]) + stream(bodies.drop_first())
    }
}

/// After the digits of a length that fits the address space the decoder holds
/// that length.
proof fn lemma_digits_are_read(n: nat)
    requires
        n <= usize::MAX,
    ensures
        feed(start(), digits(n)).frames == Seq::<Seq<u8>>::empty(),
        feed(start(), digits(n)).state == Framing::Size(Some(n)),
        feed(start(), digits(n)).error.is_none(),
    decreases n,
{
    if n < 10 {
        let d = (0x30 + n) as u8;
        assert(digits(n) =~= seq![d]);
        assert(digits(n).drop_first() =~= Seq::<u8>::empty());
        assert(feed(Framing::Size(Some(n)), Seq::<u8>::empty()).state == Framing::Size(Some(n)));
    } else {
        let d = (0x30 + n % 10) as u8;
        let head = digits(n / 10);
        lemma_digits_are_read(n / 10);
        assert(digits(n) =~= head + seq![d]);
        chunks_do_not_matter(start(), head, seq![d]);
        assert(seq![d].drop_first() =~= Seq::<u8>::empty());
        assert((n / 10) * 10 + n % 10 == n) by (nonlinear_arith);
        assert(feed(Framing::Size(Some(n)), Seq::<u8>::empty()).state == Framing::Size(Some(n)));
        assert(feed(Framing::Size(Some(n / 10)), seq![d]).state == Framing::Size(Some(n)));
        assert(Seq::<Seq<u8>>::empty() + Seq::<Seq<u8>>::empty() =~= Seq::<Seq<u8>>::empty());
    }
}

/// A body of the announced length completes the frame.
proof fn lemma_body_is_read(remaining: nat, partial: Seq<u8>, body: Seq<u8>)
    requires
        body.len() == remaining,
        remaining >= 1,
    ensures
        feed(Framing::Body { remaining, partial }, body).frames == seq![partial + body],
        feed(Framing::Body { remaining, partial }, body).state == start(),
        feed(Framing::Body { remaining, partial }, body).error.is_none(),
    decreases body.len(),
{
    let s = Framing::Body { remaining, partial };
    if remaining == 1 {
        assert(body.drop_first() =~= Seq::<u8>::empty());
        assert(partial.push(body[0]) =~= partial + body);
        assert(feed(start(), Seq::<u8>::empty()).frames =~= Seq::<Seq<u8>>::empty());
        assert(seq![partial + body] + Seq::<Seq<u8>>::empty() =~= seq![partial + body]);
    } else {
        lemma_body_is_read((remaining - 1) as nat, partial.push(body[0]), body.drop_first());
        assert(partial.push(body[0]) + body.drop_first() =~= partial + body);
    }
}

/// Framing undoes itself: the decoder reads out of the record of a body that
/// body, and stands at the start of the next record afterwards.
pub proof fn record_gives_its_body(body: Seq<u8>)
    requires
        body.len() <= usize::MAX,
    ensures
        feed(start(), record(body)).frames == seq![body],
        feed(start(), record(body)).state == start(),
        feed(start(), record(body)).error.is_none(),
{
    let n = body.len();
    let tail = seq![0x20u8] + body;
    lemma_digits_are_read(n);
    assert(record(body) =~= digits(n) + tail);
    chunks_do_not_matter(start(), digits(n), tail);
    assert(tail[0] == 0x20u8);
    assert(tail.drop_first() =~= body);
    if n == 0 {
        assert(Seq::<u8>::empty() =~= body);
        assert(feed(start(), Seq::<u8>::empty()).frames =~= Seq::<Seq<u8>>::empty());
        assert(seq![Seq::<u8>::empty()] + Seq::<Seq<u8>>::empty() =~= seq![body]);
    } else {
        lemma_body_is_read(n, Seq::empty(), body);
        assert(Seq::<u8>::empty() + body =~= body);
    }
    assert(Seq::<Seq<u8>>::empty() + seq![body] =~= seq![body]);
}

/// The decoder reads out of a stream of records their bodies, in order,
/// however the stream is cut into chunks.
pub proof fn stream_gives_its_bodies(bodies: Seq<Seq<u8>>)
    requires
        forall|i: int| 0 <= i < bodies.len() ==> (#[trigger] bodies[i]).len() <= usize::MAX,
    ensures
        feed(start(), stream(bodies)).frames == bodies,
        feed(start(), stream(bodies)).state == start(),
        feed(start(), stream(bodies)).error.is_none(),
    decreases bodies.len(),
{
    if bodies.len() == 0 {
        assert(feed(start(), Seq::<u8>::empty()).frames =~= bodies);
    } else {
        let rest = bodies.drop_first();
        record_gives_its_body(bodies[0]);
        assert forall|i: int| 0 <= i < rest.len() implies (#[trigger] rest[i]).len()
            <= usize::MAX by {
            assert(rest[i] == bodies[i + 1]);
        }
        stream_gives_its_bodies(rest);
        chunks_do_not_matter(start(), record(bodies[0]), stream(rest));
        assert(seq![bodies[0]] + rest =~= bodies);
    }
}

/// The bodies held by a vector of frames.
pub open spec fn bodies(frames: Seq<Vec<u8>>) -> Seq<Seq<u8>> {
    frames.map_values(|f: Vec<u8>| f@)
}

enum ParseState {
    ExpectFrameSize(Option<usize>),
    ExpectBytes(usize),
}

/// Where a decoder with this state and this buffer stands, if they fit
/// together: no buffer while the length is read, and a body that is still
/// short of its length and fits the address space.
spec fn standing(state: ParseState, buffer: Seq<u8>) -> Option<Framing> {
    match state {
        ParseState::ExpectFrameSize(v) => if buffer.len() == 0 {
            Some(Framing::Size(match v { Some(n) => Some(n as nat), None => None }))
        } else {
            None
        },
        ParseState::ExpectBytes(n) => if n >= 1 && buffer.len() + n <= usize::MAX {
            Some(Framing::Body { remaining: n as nat, partial: buffer })
        } else {
            None
        },
    }
}

/// Decoder for octet-counted syslog records.
pub struct SyslogTLS {
    state: ParseState,
    frame_buffer: Vec<u8>,
}

impl View for SyslogTLS {
    type V = Framing;

    closed spec fn view(&self) -> Framing {
        match standing(self.state, self.frame_buffer@) {
            Some(f) => f,
            None => start(),
        }
    }
}

impl SyslogTLS {
    #[verifier::type_invariant]
    spec fn inv(self) -> bool {
        standing(self.state, self.frame_buffer@).is_some()
    }

    pub fn new() -> (r: Self)
        ensures
            r@ == start(),
    {
        SyslogTLS { state: ParseState::ExpectFrameSize(None), frame_buffer: Vec::new() }
    }

    /// Takes one chunk of the stream, appends to `acc` the bodies of the records
    /// that end in it, and keeps the unfinished rest for the next chunk. On an
    /// error the bodies completed before it stay in `acc` and the decoder starts
    /// over.
    pub fn parse(&mut self, data: &[u8], acc: &mut Vec<Vec<u8>>) -> (res: Result<(), FrameError>)
        ensures
            bodies(final(acc)@) == bodies(old(acc)@) + feed(old(self)@, data@).frames,
            final(self)@ == feed(old(self)@, data@).state,
            res == (match feed(old(self)@, data@).error {
                Some(e) => Err::<(), FrameError>(e),
                None => Ok(()),
            }),
    {
        proof {
            use_type_invariant(&*self);
        }
        let ghost whole = feed(self@, data@);
        let ghost before = bodies(acc@);
        let mut taken = SyslogTLS::new();
        std::mem::swap(self, &mut taken);
        let SyslogTLS { state, frame_buffer } = taken;
        let mut state = state;
        let mut buffer = frame_buffer;
        let mut i: usize = 0;
        assert(data@.skip(0) == data@);
        while i < data.len()
            invariant
                i <= data.len(),
                standing(state, buffer@).is_some(),
                bodies(acc@) + feed(standing(state, buffer@).unwrap(), data@.skip(i as int)).frames
                    == before + whole.frames,
                feed(standing(state, buffer@).unwrap(), data@.skip(i as int)).state == whole.state,
                feed(standing(state, buffer@).unwrap(), data@.skip(i as int)).error == whole.error,
                self@ == start(),
                whole == feed(old(self)@, data@),
                before == bodies(old(acc)@),
            decreases data.len() - i,
        {
            let b = data[i];
            let ghost rest = data@.skip(i as int);
            let ghost acc_now = bodies(acc@);
            assert(rest.len() > 0 && rest[0] == b);
            assert(rest.drop_first() == data@.skip(i + 1));
            let ghost cur = standing(state, buffer@).unwrap();
            let failure: Option<FrameError> = match state {
                ParseState::ExpectFrameSize(v) => {
                    if 0x30 <= b && b <= 0x39 {
                        let digit: usize = (b - 0x30) as usize;
                        let so_far: usize = match v {
                            Some(n) => n,
                            None => 0,
                        };
                        match so_far.checked_mul(10) {
                            None => Some(FrameError::FrameSizeOverflow),
                            Some(tens) => match tens.checked_add(digit) {
                                None => Some(FrameError::FrameSizeOverflow),
                                Some(n) => {
                                    state = ParseState::ExpectFrameSize(Some(n));
                                    None
                                },
                            },
                        }
                    } else if b == 0x20 {
                        match v {
                            None => Some(FrameError::EmptyFrameSize),
                            Some(n) => {
                                if n == 0 {
                                    acc.push(Vec::new());
                                    assert(bodies(acc@) == acc_now + seq![Seq::<u8>::empty()]);
                                    state = ParseState::ExpectFrameSize(None);
                                } else {
                                    state = ParseState::ExpectBytes(n);
                                }
                                None
                            },
                        }
                    } else {
                        Some(FrameError::InvalidFrameSize(b))
                    }
                },
                ParseState::ExpectBytes(n) => {
                    buffer.push(b);
                    if n == 1 {
                        let mut frame: Vec<u8> = Vec::new();
                        std::mem::swap(&mut frame, &mut buffer);
                        acc.push(frame);
                        assert(bodies(acc@) == acc_now + seq![frame@]);
                        state = ParseState::ExpectFrameSize(None);
                    } else {
                        state = ParseState::ExpectBytes(n - 1);
                    }
                    None
                },
            };
            if let Some(e) = failure {
                assert(step(cur, b) == Step::Fail(e));
                assert(feed(cur, rest).error == Some(e));
                assert(feed(cur, rest).frames == Seq::<Seq<u8>>::empty());
                assert(bodies(acc@) + Seq::<Seq<u8>>::empty() == bodies(acc@));
                return Err(e);
            }
            assert(standing(state, buffer@).is_some());
            let ghost now = standing(state, buffer@).unwrap();
            assert(cur is Size ==> buffer@ == Seq::<u8>::empty());
            assert(match step(cur, b) {
                Step::Fail(_) => false,
                Step::Next(t) => t == now && bodies(acc@) == acc_now,
                Step::Frame(f) => now == start() && bodies(acc@) == acc_now + seq![f],
            });
            assert(forall|f: Seq<u8>, tail: Seq<Seq<u8>>|
                #![trigger (acc_now + seq![f]) + tail]
                (acc_now + seq![f]) + tail == acc_now + (seq![f] + tail));
            i += 1;
        }
        assert(data@.skip(i as int).len() == 0);
        *self = SyslogTLS { state, frame_buffer: buffer };
        Ok(())
    }

    /// Takes one chunk of the stream and returns the bodies of the records that
    /// end in it. The time of arrival is left as it is.
    pub fn process(&mut self, ingest_ns: &mut u64, data: &[u8]) -> (res: Result<Vec<Vec<u8>>, FrameError>)
        ensures
            *final(ingest_ns) == *old(ingest_ns),
            final(self)@ == feed(old(self)@, data@).state,
            match feed(old(self)@, data@).error {
                Some(e) => res == Err::<Vec<Vec<u8>>, FrameError>(e),
                None => res.is_ok() && bodies(res.unwrap()@) == feed(old(self)@, data@).frames,
            },
    {
        let mut frames: Vec<Vec<u8>> = Vec::new();
        assert(bodies(frames@) == Seq::<Seq<u8>>::empty());
        match self.parse(data, &mut frames) {
            Ok(()) => Ok(frames),
            Err(e) => Err(e),
        }
    }
}

} // verus!
