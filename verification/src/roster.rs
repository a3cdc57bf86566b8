//! The destination roster and the fan-out of one frame to every sink on it.

use vstd::prelude::*;

verus! {

/// The sinks that frames are forwarded to, in the order in which they were
/// added. The roster owns its sinks; a sink that leaves it is dropped.
pub struct Destinations<S> {
    receivers: Vec<S>,
}

impl<S> View for Destinations<S> {
    type V = Seq<S>;

    closed spec fn view(&self) -> Seq<S> {
        self.receivers@
    }
}

/// The sinks that stay after one write attempt on each: those whose attempt
/// was delivered, in their old order. A sink without an outcome does not stay.
pub open spec fn retained<S>(sinks: Seq<S>, delivered: Seq<bool>) -> Seq<S>
    decreases sinks.len(),
{
    if sinks.len() == 0 {
        Seq::empty()
    } else {
        let rest = retained(sinks.drop_last(), delivered);
        if sinks.len() <= delivered.len() && delivered[sinks.len() - 1] {
            rest.push(sinks.last())
        } else {
            rest
        }
    }
}

/// Only the outcomes of the sinks at hand decide which of them stay.
pub proof fn lemma_retained_reads_prefix<S>(sinks: Seq<S>, a: Seq<bool>, b: Seq<bool>)
    requires
        sinks.len() <= a.len(),
        sinks.len() <= b.len(),
        forall|i: int| 0 <= i < sinks.len() ==> a[i] == b[i],
    ensures
        retained(sinks, a) == retained(sinks, b),
    decreases sinks.len(),
{
    if sinks.len() > 0 {
        lemma_retained_reads_prefix(sinks.drop_last(), a, b);
    }
}

/// That sink `x` is among `sinks` at a place whose attempt was delivered.
pub open spec fn delivered_to<S>(sinks: Seq<S>, delivered: Seq<bool>, x: S) -> bool {
    exists|i: int| 0 <= i < sinks.len() && i < delivered.len() && delivered[i] && sinks[i] == x
}

/// The sinks that stay are those that a delivered attempt was made on.
pub proof fn lemma_retained_members<S>(sinks: Seq<S>, delivered: Seq<bool>, x: S)
    ensures
        retained(sinks, delivered).contains(x) <==> delivered_to(sinks, delivered, x),
    decreases sinks.len(),
{
    let kept = retained(sinks, delivered);
    if sinks.len() > 0 {
        let front = sinks.drop_last();
        let rest = retained(front, delivered);
        let last = sinks.len() - 1;
        lemma_retained_members(front, delivered, x);
        if kept.contains(x) {
            let k = choose|k: int| 0 <= k < kept.len() && kept[k] == x;
            if k < rest.len() {
                assert(rest.contains(x));
                let i = choose|i: int|
                    0 <= i < front.len() && i < delivered.len() && delivered[i] && front[i] == x;
                assert(sinks[i] == x);
            } else {
                assert(sinks[last] == x && delivered[last]);
            }
        }
        if delivered_to(sinks, delivered, x) {
            let i = choose|i: int|
                0 <= i < sinks.len() && i < delivered.len() && delivered[i] && sinks[i] == x;
            if i < last {
                assert(front[i] == x);
                assert(rest.contains(x));
                let k = choose|k: int| 0 <= k < rest.len() && rest[k] == x;
                assert(kept[k] == x);
            } else {
                assert(kept[kept.len() - 1] == x);
            }
        }
    }
}

/// Fidelity: if one attempt was made on every sink with the bytes `frame`,
/// then every sink that stays is one whose attempt, with exactly those
/// bytes, succeeded.
pub proof fn lemma_retained_received_frame<S, W: Fn(&S, &[u8]) -> bool>(
    write: W,
    sinks: Seq<S>,
    delivered: Seq<bool>,
    frame: Seq<u8>,
    k: int,
)
    requires
        delivered.len() == sinks.len(),
        forall|i: int|
            0 <= i < sinks.len() ==> #[trigger] attempt_made(write, sinks[i], frame, delivered[i]),
        0 <= k < retained(sinks, delivered).len(),
    ensures
        attempt_made(write, retained(sinks, delivered)[k], frame, true),
{
    let x = retained(sinks, delivered)[k];
    assert(retained(sinks, delivered).contains(x));
    lemma_retained_members(sinks, delivered, x);
    let i = choose|i: int|
        0 <= i < sinks.len() && i < delivered.len() && delivered[i] && sinks[i] == x;
    assert(attempt_made(write, sinks[i], frame, delivered[i]));
}

/// Eviction: a sink whose attempt succeeded stays; a sink whose attempt
/// failed is gone, provided the roster held it once only.
pub proof fn lemma_failed_sinks_leave<S>(sinks: Seq<S>, delivered: Seq<bool>, i: int)
    requires
        delivered.len() == sinks.len(),
        0 <= i < sinks.len(),
    ensures
        delivered[i] ==> retained(sinks, delivered).contains(sinks[i]),
        !delivered[i] && sinks.no_duplicates() ==> !retained(sinks, delivered).contains(sinks[i]),
{
    lemma_retained_members(sinks, delivered, sinks[i]);
}

/// If every attempt succeeds, the roster stays as it was.
pub proof fn lemma_all_delivered_keeps_all<S>(sinks: Seq<S>, delivered: Seq<bool>)
    requires
        sinks.len() <= delivered.len(),
        forall|i: int| 0 <= i < sinks.len() ==> #[trigger] delivered[i],
    ensures
        retained(sinks, delivered) == sinks,
    decreases sinks.len(),
{
    if sinks.len() > 0 {
        lemma_all_delivered_keeps_all(sinks.drop_last(), delivered);
        assert(delivered[sinks.len() - 1]);
        assert(sinks.drop_last().push(sinks.last()) =~= sinks);
    } else {
        assert(retained(sinks, delivered) =~= sinks);
    }
}

/// If every attempt fails, the roster is empty afterwards.
pub proof fn lemma_none_delivered_keeps_none<S>(sinks: Seq<S>, delivered: Seq<bool>)
    requires
        forall|i: int| 0 <= i < sinks.len() && i < delivered.len() ==> !#[trigger] delivered[i],
    ensures
        retained(sinks, delivered).len() == 0,
    decreases sinks.len(),
{
    if sinks.len() > 0 {
        lemma_none_delivered_keeps_none(sinks.drop_last(), delivered);
    }
}

impl<S> Destinations<S> {
    /// An empty roster.
    pub fn new() -> (roster: Self)
        ensures
            roster@ == Seq::<S>::empty(),
    {
        Destinations { receivers: Vec::new() }
    }

    /// Appends a sink. Nothing is compared: a sink added twice is on the
    /// roster twice.
    pub fn add(&mut self, client: S)
        ensures
            final(self)@ == old(self)@.push(client),
    {
        self.receivers.push(client);
    }

    /// The number of sinks on the roster.
    pub fn len(&self) -> (n: usize)
        ensures
            n == self@.len(),
    {
        self.receivers.len()
    }

    /// Whether no sink is on the roster.
    pub fn is_empty(&self) -> (empty: bool)
        ensures
            empty == (self@.len() == 0),
    {
        self.receivers.len() == 0
    }
}

/// That `write`, tried on `sink` with exactly the bytes `frame`, may have
/// answered `ok`.
pub open spec fn attempt_made<S, W: Fn(&S, &[u8]) -> bool>(
    write: W,
    sink: S,
    frame: Seq<u8>,
    ok: bool,
) -> bool {
    exists|bytes: &[u8]| bytes@ == frame && #[trigger] write.ensures((&sink, bytes), ok)
}

/// The bytes of a frame on the wire: the header, then the payload.
pub fn frame_bytes(header: &[u8], payload: &[u8]) -> (frame: Vec<u8>)
    ensures
        frame@ == header@ + payload@,
{
    let mut frame: Vec<u8> = Vec::new();
    let mut i: usize = 0;
    while i < header.len()
        invariant
            i <= header@.len(),
            frame@ == header@.take(i as int),
        decreases header@.len() - i,
    {
        frame.push(header[i]);
        i = i + 1;
        assert(frame@ =~= header@.take(i as int));
    }
    assert(header@.take(i as int) =~= header@);
    let mut j: usize = 0;
    while j < payload.len()
        invariant
            j <= payload@.len(),
            frame@ == header@ + payload@.take(j as int),
        decreases payload@.len() - j,
    {
        frame.push(payload[j]);
        j = j + 1;
        assert(frame@ =~= header@ + payload@.take(j as int));
    }
    assert(payload@.take(j as int) =~= payload@);
    frame
}

/// Writes one frame to every sink on the roster, in roster order, and drops
/// each sink whose write fails before the next one is tried. `write` makes one
/// attempt on one sink and says whether all the bytes were taken. The result
/// holds the outcome of each attempt, by the sink's old position.
///
/// Every attempt was made with exactly the header followed by the payload, and
/// the sinks that stay are exactly those whose attempt succeeded.
pub fn broadcast_message<S, W: Fn(&S, &[u8]) -> bool>(
    header: &[u8],
    payload: &[u8],
    destinations: &mut Destinations<S>,
    write: W,
) -> (delivered: Vec<bool>)
    requires
        forall|i: int, bytes: &[u8]|
            0 <= i < old(destinations)@.len() && bytes@ == header@ + payload@
                ==> #[trigger] write.requires((&old(destinations)@[i], bytes)),
    ensures
        delivered@.len() == old(destinations)@.len(),
        forall|i: int|
            0 <= i < delivered@.len() ==> #[trigger] attempt_made(
                write,
                old(destinations)@[i],
                header@ + payload@,
                delivered@[i],
            ),
        final(destinations)@ == retained(old(destinations)@, delivered@),
{
    let frame: Vec<u8> = frame_bytes(header, payload);
    let ghost sinks: Seq<S> = destinations.receivers@;
    let total: usize = destinations.receivers.len();
    assert(sinks == old(destinations)@);
    let mut delivered: Vec<bool> = Vec::new();
    let mut at: usize = 0;
    while delivered.len() < total
        invariant
            total == sinks.len(),
            sinks == old(destinations)@,
            frame@ == header@ + payload@,
            delivered@.len() <= total,
            at == retained(sinks.take(delivered@.len() as int), delivered@).len(),
            destinations.receivers@ == retained(sinks.take(delivered@.len() as int), delivered@)
                + sinks.skip(delivered@.len() as int),
            forall|i: int, bytes: &[u8]|
                0 <= i < sinks.len() && bytes@ == header@ + payload@ ==> #[trigger] write.requires(
                    (&sinks[i], bytes),
                ),
            forall|i: int|
                0 <= i < delivered@.len() ==> #[trigger] attempt_made(
                    write,
                    sinks[i],
                    header@ + payload@,
                    delivered@[i],
                ),
        decreases total - delivered@.len(),
    {
        let ghost done: int = delivered@.len() as int;
        let ghost before: Seq<bool> = delivered@;
        let ghost kept: Seq<S> = retained(sinks.take(done), before);
        assert(sinks.skip(done).len() > 0);
        let present: usize = destinations.receivers.len();
        assert(at < present);
        assert(destinations.receivers@[at as int] == sinks[done]);
        let ok: bool = write(&destinations.receivers[at], frame.as_slice());
        if ok {
            at = at + 1;
        } else {
            let _ = destinations.receivers.remove(at);
        }
        delivered.push(ok);
        proof {
            assert(attempt_made(write, sinks[done], header@ + payload@, ok));
            assert(sinks.take(done + 1).drop_last() =~= sinks.take(done));
            lemma_retained_reads_prefix(sinks.take(done), before, delivered@);
            assert(destinations.receivers@ =~= retained(sinks.take(done + 1), delivered@)
                + sinks.skip(done + 1));
        }
    }
    proof {
        assert(sinks.take(total as int) =~= sinks);
        assert(destinations.receivers@ =~= retained(sinks, delivered@));
    }
    delivered
}

} // verus!
