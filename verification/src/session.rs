//! One source session: headers and payloads come in, frames go out.
//!
//! The session never reads or writes itself. Its caller reads the number of
//! bytes the session asks for, reports them (or that the read fell short), and
//! acts on the answer.

use vstd::prelude::*;
use crate::admission::AdmissionSlot;
use crate::frame::{
    checksum_of, checksum_valid, header_checksum, header_length, header_sensitive, header_verdict,
    is_checksum_valid, validate_header, HeaderError, CTMP_HEADER_LEN,
};

verus! {

/// Why a session ended.
#[derive(Clone, Copy, Debug, PartialEq, Eq, Structural)]
pub enum Termination {
    /// A read gave fewer bytes than were asked for, or failed.
    ShortRead,
    /// A header broke a rule of the protocol.
    InvalidHeader(HeaderError),
}

/// Where a session stands.
pub enum Phase {
    /// The next eight bytes are a header.
    AwaitingHeader,
    /// This header was accepted; the next bytes are its payload.
    AwaitingPayload(Seq<u8>),
    /// The session is over.
    Closed(Termination),
}

/// What the caller is to do after a report.
pub enum Signal {
    /// Read a payload of this many bytes.
    NeedPayload(int),
    /// Forward the frame made of this header and this payload, then read a header.
    Forward(Seq<u8>, Seq<u8>),
    /// The frame failed its checksum and is dropped; read a header.
    Dropped,
    /// Close the source.
    Closed(Termination),
}

impl Phase {
    /// A header that awaits its payload is one that validation accepts.
    pub open spec fn wf(self) -> bool {
        match self {
            Phase::AwaitingPayload(header) => header.len() == 8 && header_verdict(header) is Ok,
            _ => true,
        }
    }

    /// How many bytes the session asks for next.
    pub open spec fn wanted(self) -> int {
        match self {
            Phase::AwaitingHeader => 8,
            Phase::AwaitingPayload(header) => header_length(header),
            Phase::Closed(_) => 0,
        }
    }
}

/// The session's rule. `event` is `Some` of the bytes that a read delivered,
/// or `None` if it fell short. A closed session stays closed. A short read,
/// or a report of another size than was asked for, closes the session. A
/// header is accepted or closes the session. A payload completes a frame,
/// which is forwarded if it is checksum-valid and dropped otherwise; either
/// way the session goes on with the next header.
pub open spec fn transition(phase: Phase, event: Option<Seq<u8>>) -> (Phase, Signal) {
    match phase {
        Phase::Closed(reason) => (phase, Signal::Closed(reason)),
        _ => match event {
            None => (Phase::Closed(Termination::ShortRead), Signal::Closed(Termination::ShortRead)),
            Some(bytes) => if bytes.len() != phase.wanted() {
                (Phase::Closed(Termination::ShortRead), Signal::Closed(Termination::ShortRead))
            } else {
                match phase {
                    Phase::AwaitingPayload(header) => if checksum_valid(header, bytes) {
                        (Phase::AwaitingHeader, Signal::Forward(header, bytes))
                    } else {
                        (Phase::AwaitingHeader, Signal::Dropped)
                    },
                    _ => match header_verdict(bytes) {
                        Ok(_) => (
                            Phase::AwaitingPayload(bytes),
                            Signal::NeedPayload(header_length(bytes)),
                        ),
                        Err(e) => (
                            Phase::Closed(Termination::InvalidHeader(e)),
                            Signal::Closed(Termination::InvalidHeader(e)),
                        ),
                    },
                }
            },
        },
    }
}

/// A frame that is not sensitive, with a zero checksum field and zero
/// padding, is forwarded whatever its payload holds: its header is accepted,
/// and its payload completes a frame that is forwarded unaltered.
pub proof fn lemma_plain_frame_is_forwarded(header: Seq<u8>, payload: Seq<u8>)
    requires
        header.len() == 8,
        header[0] == 0xCC,
        !header_sensitive(header),
        header[4] == 0 && header[5] == 0,
        header[6] == 0 && header[7] == 0,
        header_length(header) == payload.len(),
        payload.len() >= 1,
    ensures
        transition(Phase::AwaitingHeader, Some(header)) == (
            Phase::AwaitingPayload(header),
            Signal::NeedPayload(payload.len() as int),
        ),
        transition(Phase::AwaitingPayload(header), Some(payload)) == (
            Phase::AwaitingHeader,
            Signal::Forward(header, payload),
        ),
{
}

/// A sensitive frame is forwarded if and only if it carries its checksum;
/// if it does not, it is dropped and the session goes on.
pub proof fn lemma_sensitive_frame_is_checked(header: Seq<u8>, payload: Seq<u8>)
    requires
        header.len() == 8,
        header_verdict(header) is Ok,
        header_sensitive(header),
        header_length(header) == payload.len(),
    ensures
        transition(Phase::AwaitingPayload(header), Some(payload)) == if checksum_of(
            header,
            payload,
        ) == header_checksum(header) {
            (Phase::AwaitingHeader, Signal::Forward(header, payload))
        } else {
            (Phase::AwaitingHeader, Signal::Dropped)
        },
{
}

/// A session closes on a step if and only if it was closed before, the read
/// fell short or had the wrong size, or a header was refused; a closed
/// session never opens again.
pub proof fn lemma_session_closes(phase: Phase, event: Option<Seq<u8>>)
    ensures
        transition(phase, event).0 is Closed <==> {
            ||| phase is Closed
            ||| event is None
            ||| event->0.len() != phase.wanted()
            ||| (phase is AwaitingHeader && header_verdict(event->0) is Err)
        },
        transition(phase, event).0.wf(),
{
}

/// The bytes of a report, if the read delivered any.
pub open spec fn event_bytes(event: Option<Vec<u8>>) -> Option<Seq<u8>> {
    match event {
        Some(bytes) => Some(bytes@),
        None => None,
    }
}

/// The answer to a report.
#[derive(Debug)]
pub enum Step {
    /// Read a payload of this many bytes.
    NeedPayload(u16),
    /// Forward this frame, then read a header.
    Forward { header: Vec<u8>, payload: Vec<u8> },
    /// The frame failed its checksum and is dropped; read a header.
    Dropped,
    /// Close the source.
    Closed(Termination),
}

impl View for Step {
    type V = Signal;

    open spec fn view(&self) -> Signal {
        match self {
            Step::NeedPayload(n) => Signal::NeedPayload(*n as int),
            Step::Forward { header, payload } => Signal::Forward(header@, payload@),
            Step::Dropped => Signal::Dropped,
            Step::Closed(reason) => Signal::Closed(*reason),
        }
    }
}

/// The state of one source session.
pub struct SourceSession {
    header: Option<Vec<u8>>,
    ended: Option<Termination>,
}

impl View for SourceSession {
    type V = Phase;

    closed spec fn view(&self) -> Phase {
        match self.ended {
            Some(reason) => Phase::Closed(reason),
            None => match self.header {
                Some(header) => Phase::AwaitingPayload(header@),
                None => Phase::AwaitingHeader,
            },
        }
    }
}

impl SourceSession {
    /// A session that awaits its first header.
    pub fn new() -> (session: Self)
        ensures
            session@ == Phase::AwaitingHeader,
    {
        SourceSession { header: None, ended: None }
    }

    /// How many bytes to read next; zero once the session is closed.
    pub fn wanted(&self) -> (n: usize)
        requires
            self@.wf(),
        ensures
            n == self@.wanted(),
    {
        if self.ended.is_some() {
            0
        } else {
            match &self.header {
                Some(header) => (header[2] as usize) * 256 + (header[3] as usize),
                None => CTMP_HEADER_LEN,
            }
        }
    }

    /// Whether the session is over.
    pub fn is_closed(&self) -> (closed: bool)
        ensures
            closed == (self@ is Closed),
    {
        self.ended.is_some()
    }
}

/// Ends a session: records why, and empties the admission slot.
fn close<H>(
    session: &mut SourceSession,
    reason: Termination,
    active_source: &mut AdmissionSlot<H>,
) -> (step: Step)
    ensures
        final(session)@ == Phase::Closed(reason),
        step@ == Signal::Closed(reason),
        final(active_source)@ is None,
{
    session.ended = Some(reason);
    let _ = active_source.clear();
    Step::Closed(reason)
}

/// Advances a source session by one report and says what to do next.
///
/// `event` is `Some` of the bytes that the last read delivered, or `None` if
/// it fell short or failed. The session moves as `transition` says. The
/// admission slot is emptied at the moment the session closes, whatever the
/// reason, and is not touched otherwise.
pub fn handle_transmitter<H>(
    session: &mut SourceSession,
    event: Option<Vec<u8>>,
    active_source: &mut AdmissionSlot<H>,
) -> (step: Step)
    requires
        old(session)@.wf(),
    ensures
        final(session)@.wf(),
        (final(session)@, step@) == transition(old(session)@, event_bytes(event)),
        final(active_source)@ == if old(session)@ is Closed || !(final(session)@ is Closed) {
            old(active_source)@
        } else {
            None
        },
{
    if let Some(reason) = session.ended {
        return Step::Closed(reason);
    }
    let bytes: Vec<u8> = match event {
        Some(bytes) => bytes,
        None => {
            return close(session, Termination::ShortRead, active_source);
        },
    };
    if bytes.len() != session.wanted() {
        return close(session, Termination::ShortRead, active_source);
    }
    let mut pending: Option<Vec<u8>> = None;
    core::mem::swap(&mut session.header, &mut pending);
    match pending {
        Some(header) => {
            if is_checksum_valid(header.as_slice(), bytes.as_slice()) {
                Step::Forward { header, payload: bytes }
            } else {
                Step::Dropped
            }
        },
        None => match validate_header(bytes.as_slice()) {
            Ok((length, _)) => {
                session.header = Some(bytes);
                Step::NeedPayload(length)
            },
            Err(e) => close(session, Termination::InvalidHeader(e), active_source),
        },
    }
}

} // verus!
