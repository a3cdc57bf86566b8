//! Admission of sources: at most one is admitted at a time.

use vstd::prelude::*;

verus! {

/// Why a source was turned away.
#[derive(Clone, Copy, Debug, PartialEq, Eq, Structural)]
pub enum AdmissionError {
    /// Another source holds the slot.
    SourceAlreadyActive,
}

/// The slot of the one admitted source. It holds a handle of that source
/// while its session runs, and nothing otherwise.
pub struct AdmissionSlot<H> {
    active: Option<H>,
}

impl<H> View for AdmissionSlot<H> {
    type V = Option<H>;

    closed spec fn view(&self) -> Option<H> {
        self.active
    }
}

/// The slot after a source asks for admission: an empty slot takes the new
/// handle, an occupied one keeps what it has.
pub open spec fn after_admit<H>(slot: Option<H>, source: H) -> Option<H> {
    if slot is Some {
        slot
    } else {
        Some(source)
    }
}

impl<H> AdmissionSlot<H> {
    /// An empty slot.
    pub fn new() -> (slot: Self)
        ensures
            slot@ is None,
    {
        AdmissionSlot { active: None }
    }

    /// Whether a source is admitted.
    pub fn is_occupied(&self) -> (occupied: bool)
        ensures
            occupied == (self@ is Some),
    {
        self.active.is_some()
    }

    /// Admits `source` if and only if the slot is empty, and then holds its
    /// handle. A source that comes while the slot is occupied is turned away:
    /// its handle is dropped and the slot is left as it was.
    pub fn try_admit(&mut self, source: H) -> (admitted: Result<(), AdmissionError>)
        ensures
            admitted is Ok <==> old(self)@ is None,
            admitted is Err ==> admitted == Err::<(), AdmissionError>(
                AdmissionError::SourceAlreadyActive,
            ),
            final(self)@ == after_admit(old(self)@, source),
    {
        if self.active.is_some() {
            Err(AdmissionError::SourceAlreadyActive)
        } else {
            self.active = Some(source);
            Ok(())
        }
    }

    /// Empties the slot and hands back the handle it held, if any.
    pub fn clear(&mut self) -> (released: Option<H>)
        ensures
            final(self)@ is None,
            released == old(self)@,
    {
        self.active.take()
    }
}

/// The slot together with the sessions it stands for: what the slot holds,
/// and how many admitted sessions have not closed yet.
pub struct Admission<H> {
    /// What the slot holds.
    pub slot: Option<H>,
    /// The number of admitted sessions that have not closed.
    pub live: nat,
}

impl<H> Admission<H> {
    /// At most one session is live, and the slot is occupied exactly while
    /// one is.
    pub open spec fn exclusive(self) -> bool {
        self.live <= 1 && (self.slot is Some <==> self.live == 1)
    }

    /// What follows when a source asks for admission: a session starts if and
    /// only if the slot took the source.
    pub open spec fn on_connect(self, source: H) -> Admission<H> {
        Admission {
            slot: after_admit(self.slot, source),
            live: if self.slot is None {
                self.live + 1
            } else {
                self.live
            },
        }
    }

    /// What follows when a live session closes and empties the slot.
    pub open spec fn on_close(self) -> Admission<H> {
        Admission { slot: None, live: (self.live - 1) as nat }
    }
}

/// Exclusivity is an invariant: it holds while the slot is empty and no
/// session is live, and neither a source that asks for admission nor a
/// session that closes breaks it.
pub proof fn lemma_admission_stays_exclusive<H>(state: Admission<H>, source: H)
    requires
        state.exclusive(),
    ensures
        (Admission::<H> { slot: None, live: 0 }).exclusive(),
        state.on_connect(source).exclusive(),
        state.live == 1 ==> state.on_close().exclusive(),
{
}

/// Two sources that ask in turn are never both admitted: whoever comes while
/// the slot is occupied finds it occupied by the same source afterwards.
pub proof fn lemma_admission_is_exclusive<H>(slot: Option<H>, first: H, second: H)
    ensures
        after_admit(after_admit(slot, first), second) == after_admit(slot, first),
        after_admit(slot, first) is Some,
{
}

/// Release: once a session has closed, the slot is empty and the next source
/// is admitted.
pub proof fn lemma_closed_session_admits_next<H>(state: Admission<H>, next: H)
    requires
        state.exclusive(),
        state.live == 1,
    ensures
        state.on_close().slot is None,
        state.on_close().on_connect(next).slot == Some(next),
        state.on_close().on_connect(next).live == 1,
{
}

} // verus!
