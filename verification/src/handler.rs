//! The handling of one connection: one read, at most one reply.

use vstd::prelude::*;
use vstd::slice::slice_subrange;
use crate::request::{classify, parse_request, InvalidText, RequestType};
use crate::response::Response;

verus! {

/// The capacity of the buffer that a request is read into.
pub const READ_CAPACITY: usize = 128;

/// A read of more bytes than this is refused as too big.
pub const MAX_REQUEST_LEN: usize = 1024;

/// A read of at most this many bytes is refused as too small.
pub const MIN_REQUEST_LEN: usize = 10;

/// Why the handling of a connection failed.
#[derive(Clone, Copy, Debug, PartialEq, Eq, Structural)]
pub enum HandlerError {
    /// The read failed.
    Read,
    /// The bytes read are not text in UTF-8.
    Decode,
    /// The write failed.
    Write,
}

/// The reply to a read of more than `MAX_REQUEST_LEN` bytes.
pub open spec fn too_big() -> Response {
    Response { status_code: 400, body: "Request to big" }
}

/// The reply to a read of at most `MIN_REQUEST_LEN` bytes.
pub open spec fn too_small() -> Response {
    Response { status_code: 400, body: "Request too small" }
}

/// The reply that belongs to a category.
pub open spec fn reply_to(category: RequestType) -> Response {
    match category {
        RequestType::Echo => Response { status_code: 403, body: "not implemented" },
        RequestType::Status => Response { status_code: 200, body: "alive" },
        RequestType::Other => Response { status_code: 404, body: "" },
    }
}

/// What a read of `n` bytes into `buf` is answered with: a reply, no reply
/// at all, or a failure. The size is judged first; only a read within the
/// bounds is classified, and only by its first `n` bytes.
pub open spec fn outcome_of_read(buf: Seq<u8>, n: nat) -> Result<Option<Response>, HandlerError> {
    if n > MAX_REQUEST_LEN {
        Ok(Some(too_big()))
    } else if n <= MIN_REQUEST_LEN {
        Ok(Some(too_small()))
    } else {
        match classify(buf.take(n as int)) {
            Err(_) => Err(HandlerError::Decode),
            Ok(None) => Ok(None),
            Ok(Some(category)) => Ok(Some(reply_to(category))),
        }
    }
}

/// The reply that belongs to a category.
pub fn reply(category: RequestType) -> (r: Response)
    ensures
        r == reply_to(category),
{
    match category {
        RequestType::Echo => Response { status_code: 403, body: "not implemented" },
        RequestType::Status => Response { status_code: 200, body: "alive" },
        RequestType::Other => Response { status_code: 404, body: "" },
    }
}

/// Decides what a read of `n` bytes into `buf` is answered with.
///
/// A read of more than 1024 bytes gets status 400 with the body
/// `Request to big`, one of at most 10 bytes status 400 with the body
/// `Request too small`; neither is looked into. Any other read is classified
/// by its first `n` bytes: a category gets its reply, a request without a
/// path gets none, and bytes that are no text fail.
pub fn respond(buf: &[u8], n: usize) -> (r: Result<Option<Response>, HandlerError>)
    requires
        MIN_REQUEST_LEN < n <= MAX_REQUEST_LEN ==> n <= buf.len(),
    ensures
        r == outcome_of_read(buf@, n as nat),
{
    if n > MAX_REQUEST_LEN {
        return Ok(Some(Response { status_code: 400, body: "Request to big" }));
    }
    if n <= MIN_REQUEST_LEN {
        return Ok(Some(Response { status_code: 400, body: "Request too small" }));
    }
    let request = slice_subrange(buf, 0, n);
    assert(request@ =~= buf@.take(n as int));
    match parse_request(request) {
        Err(InvalidText) => Err(HandlerError::Decode),
        Ok(None) => Ok(None),
        Ok(Some(category)) => Ok(Some(reply(category))),
    }
}

/// The size of a read decides first: more than `MAX_REQUEST_LEN` bytes are
/// answered as too big and at most `MIN_REQUEST_LEN` as too small, whatever
/// the bytes are.
pub proof fn lemma_size_decides(buf: Seq<u8>, n: nat)
    ensures
        n > MAX_REQUEST_LEN ==> outcome_of_read(buf, n) == Ok::<_, HandlerError>(Some(too_big())),
        n <= MIN_REQUEST_LEN ==> outcome_of_read(buf, n) == Ok::<_, HandlerError>(
            Some(too_small()),
        ),
{
}

/// The answer to a read of `n` bytes depends on the first `n` bytes of the
/// buffer alone: two buffers that agree on them are answered alike, whatever
/// stands behind.
pub proof fn lemma_rest_of_buffer_ignored(a: Seq<u8>, b: Seq<u8>, n: nat)
    requires
        a.take(n as int) == b.take(n as int),
    ensures
        outcome_of_read(a, n) == outcome_of_read(b, n),
{
}

/// A read within the size bounds is answered by its classification alone:
/// with the reply of its category, with nothing where it has no path, with
/// the failure where it is no text.
pub proof fn lemma_answer_by_classification(buf: Seq<u8>, n: nat)
    requires
        MIN_REQUEST_LEN < n <= MAX_REQUEST_LEN,
    ensures
        outcome_of_read(buf, n) == (match classify(buf.take(n as int)) {
            Err(_) => Err(HandlerError::Decode),
            Ok(None) => Ok(None),
            Ok(Some(category)) => Ok(Some(reply_to(category))),
        }),
{
}

/// Where the handling of a connection stands.
#[derive(Clone, Copy, Debug, PartialEq, Eq, Structural)]
pub enum Phase {
    /// The connection was accepted; nothing was done on it yet.
    Accepted,
    /// The one read is under way.
    Reading,
    /// The reply to a read of a refused size is being written.
    RespondingError,
    /// The reply to a classified request is being written.
    Responding,
    /// The handling is over; the connection is released.
    Closed,
}

/// What happened on the connection since the last step.
#[derive(Clone, Copy, Debug)]
pub enum Event<'a> {
    /// The handler was started on the connection.
    Started,
    /// The read filled the first `n` bytes of `buf`.
    ReadDone { buf: &'a [u8], n: usize },
    /// The read failed.
    ReadFailed,
    /// The write was completed.
    WriteDone,
    /// The write failed.
    WriteFailed,
}

/// What the caller is to do next on the connection.
#[derive(Debug, PartialEq, Eq)]
pub enum Action {
    /// Read once into a buffer of `capacity` bytes.
    Read { capacity: usize },
    /// Write all of `bytes` in one write.
    Write { bytes: Vec<u8> },
    /// Release the connection and end with `result`.
    Finish { result: Result<(), HandlerError> },
}

/// An action, with the bytes to write as a sequence.
pub enum ActionView {
    Read { capacity: usize },
    Write { bytes: Seq<u8> },
    Finish { result: Result<(), HandlerError> },
}

impl View for Action {
    type V = ActionView;

    open spec fn view(&self) -> ActionView {
        match *self {
            Action::Read { capacity } => ActionView::Read { capacity },
            Action::Write { bytes } => ActionView::Write { bytes: bytes@ },
            Action::Finish { result } => ActionView::Finish { result },
        }
    }
}

/// Whether `event` can happen in `phase`: the start on an accepted
/// connection, the end of the read while reading, the end of the write while
/// replying, and nothing once the connection is closed. A read within the
/// size bounds has filled no more than the buffer holds.
pub open spec fn admits(phase: Phase, event: Event) -> bool {
    match (phase, event) {
        (Phase::Accepted, Event::Started) => true,
        (Phase::Reading, Event::ReadDone { buf, n }) => MIN_REQUEST_LEN < n <= MAX_REQUEST_LEN
            ==> n <= buf@.len(),
        (Phase::Reading, Event::ReadFailed) => true,
        (Phase::RespondingError, Event::WriteDone) => true,
        (Phase::RespondingError, Event::WriteFailed) => true,
        (Phase::Responding, Event::WriteDone) => true,
        (Phase::Responding, Event::WriteFailed) => true,
        _ => false,
    }
}

/// Whether a read of `n` bytes is refused for its size.
pub open spec fn size_refused(n: usize) -> bool {
    n > MAX_REQUEST_LEN || n <= MIN_REQUEST_LEN
}

/// The phase that follows `phase` on an event that it admits. Which events
/// a phase admits is for `admits` to say; the event then decides alone.
pub open spec fn next_phase(phase: Phase, event: Event) -> Phase {
    match event {
        Event::Started => Phase::Reading,
        Event::ReadDone { buf, n } => match outcome_of_read(buf@, n as nat) {
            Ok(Some(_)) => if size_refused(n) {
                Phase::RespondingError
            } else {
                Phase::Responding
            },
            _ => Phase::Closed,
        },
        _ => Phase::Closed,
    }
}

/// The action that an event admitted in `phase` calls for.
pub open spec fn next_action(phase: Phase, event: Event) -> ActionView {
    match event {
        Event::Started => ActionView::Read { capacity: READ_CAPACITY },
        Event::ReadDone { buf, n } => match outcome_of_read(buf@, n as nat) {
            Ok(Some(response)) => ActionView::Write { bytes: response.wire() },
            Ok(None) => ActionView::Finish { result: Ok(()) },
            Err(e) => ActionView::Finish { result: Err(e) },
        },
        Event::ReadFailed => ActionView::Finish { result: Err(HandlerError::Read) },
        Event::WriteDone => ActionView::Finish { result: Ok(()) },
        Event::WriteFailed => ActionView::Finish { result: Err(HandlerError::Write) },
    }
}

/// Whether `event` can happen in `phase`.
pub fn is_admitted(phase: Phase, event: Event) -> (yes: bool)
    ensures
        yes == admits(phase, event),
{
    match (phase, event) {
        (Phase::Accepted, Event::Started) => true,
        (Phase::Reading, Event::ReadDone { buf, n }) => !(MIN_REQUEST_LEN < n && n
            <= MAX_REQUEST_LEN) || n <= buf.len(),
        (Phase::Reading, Event::ReadFailed) => true,
        (Phase::RespondingError, Event::WriteDone) => true,
        (Phase::RespondingError, Event::WriteFailed) => true,
        (Phase::Responding, Event::WriteDone) => true,
        (Phase::Responding, Event::WriteFailed) => true,
        _ => false,
    }
}

/// Takes one step in the handling of a connection: from the phase it stands
/// in and what happened, to the phase that follows and what to do next.
///
/// A started handler reads once. A completed read is answered as `respond`
/// decides: a reply is written, or the handling ends at once, without a
/// reply or with the failure. A failed read ends it with that failure, and
/// the end of the write ends it with the write's result.
pub fn step(phase: Phase, event: Event) -> (r: (Phase, Action))
    requires
        admits(phase, event),
    ensures
        r.0 == next_phase(phase, event),
        r.1@ == next_action(phase, event),
{
    match event {
        Event::Started => (Phase::Reading, Action::Read { capacity: READ_CAPACITY }),
        Event::ReadDone { buf, n } => match respond(buf, n) {
            Ok(Some(response)) => {
                let next = if n > MAX_REQUEST_LEN || n <= MIN_REQUEST_LEN {
                    Phase::RespondingError
                } else {
                    Phase::Responding
                };
                (next, Action::Write { bytes: response.to_bytes() })
            },
            Ok(None) => (Phase::Closed, Action::Finish { result: Ok(()) }),
            Err(e) => (Phase::Closed, Action::Finish { result: Err(e) }),
        },
        Event::ReadFailed => (Phase::Closed, Action::Finish { result: Err(HandlerError::Read) }),
        Event::WriteDone => (Phase::Closed, Action::Finish { result: Ok(()) }),
        Event::WriteFailed => (Phase::Closed, Action::Finish { result: Err(HandlerError::Write) }),
    }
}

/// The rank of a phase: how many events can still follow it.
pub open spec fn events_left(phase: Phase) -> nat {
    match phase {
        Phase::Accepted => 3,
        Phase::Reading => 2,
        Phase::RespondingError => 1,
        Phase::Responding => 1,
        Phase::Closed => 0,
    }
}

/// Every step brings the connection nearer to its end, so a handler takes
/// three steps at most, and a closed connection takes none: it is never
/// used again.
pub proof fn lemma_step_progress(phase: Phase, event: Event)
    requires
        admits(phase, event),
    ensures
        events_left(next_phase(phase, event)) < events_left(phase),
        forall|e: Event| !admits(Phase::Closed, e),
{
}

/// A handler reads exactly once and writes at most once: the read is asked
/// for by the start alone, a write by the completed read alone, and the
/// handling is over exactly when the connection is closed.
pub proof fn lemma_one_read_one_write(phase: Phase, event: Event)
    requires
        admits(phase, event),
    ensures
        next_action(phase, event) is Read <==> phase == Phase::Accepted,
        next_action(phase, event) is Write ==> phase == Phase::Reading,
        next_action(phase, event) is Finish <==> next_phase(phase, event) == Phase::Closed,
        next_action(phase, event) is Write <==> (next_phase(phase, event) == Phase::Responding
            || next_phase(phase, event) == Phase::RespondingError),
{
}

/// A read of a refused size is never dropped in silence: it is answered
/// with the reply for its size.
pub proof fn lemma_refused_size_is_answered(event: Event)
    requires
        event matches Event::ReadDone { n, .. } && size_refused(n),
    ensures
        next_phase(Phase::Reading, event) == Phase::RespondingError,
        next_action(Phase::Reading, event) is Write,
{
}

/// Two connections that read the same request are told to do the same:
/// the bytes written depend on nothing but the bytes read.
pub proof fn lemma_same_request_same_reply(first: Event, second: Event)
    requires
        first matches Event::ReadDone { buf: a, n: m } && second matches Event::ReadDone {
            buf: b,
            n,
        } && m == n && a@.take(m as int) == b@.take(n as int),
    ensures
        next_phase(Phase::Reading, first) == next_phase(Phase::Reading, second),
        next_action(Phase::Reading, first) == next_action(Phase::Reading, second),
{
}

} // verus!
