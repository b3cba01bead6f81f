use vstd::prelude::*;
use std::collections::HashMap;
use fastrand::Rng;
use tokio::sync::mpsc::{unbounded_channel, UnboundedReceiver, UnboundedSender};

verus! {

broadcast use vstd::std_specs::hash::group_hash_axioms;

/// tokio's writer end of an unbounded queue, held opaque.
#[verifier::external_type_specification]
#[verifier::external_body]
#[verifier::reject_recursive_types(T)]
pub struct ExUnboundedSender<T>(UnboundedSender<T>);

/// tokio's reader end of an unbounded queue, held opaque.
#[verifier::external_type_specification]
#[verifier::external_body]
#[verifier::reject_recursive_types(T)]
pub struct ExUnboundedReceiver<T>(UnboundedReceiver<T>);

/// fastrand's random number generator, held opaque.
#[verifier::external_type_specification]
#[verifier::external_body]
pub struct ExRng(Rng);

/// Relies on tokio's `unbounded_channel`: a new unbounded queue, its writer and its reader.
pub assume_specification<T>[ unbounded_channel::<T> ]() -> (UnboundedSender<T>, UnboundedReceiver<T>);

/// Relies on fastrand's `Rng::new`: a generator seeded from the thread's generator.
#[verifier::external_body]
fn new_rng() -> Rng {
    Rng::new()
}

/// Relies on fastrand's `Rng::u32` over the full range; nothing is known of the value.
#[verifier::external_body]
fn random_u32(rng: &Rng) -> u32 {
    rng.u32(..)
}

/// Relies on tokio's `UnboundedSender::send`: `false` when the queue's reader is gone.
#[verifier::external_body]
fn queue_send<T>(sender: &UnboundedSender<T>, item: T) -> bool {
    sender.send(item).is_ok()
}

/// Relies on tokio's `UnboundedSender::clone`: another writer to the same queue.
#[verifier::external_body]
fn clone_sender<T>(sender: &UnboundedSender<T>) -> UnboundedSender<T> {
    sender.clone()
}

/// A relay message: the id of the connection it came from, and its payload.
pub type Data = (u32, String);

/// The writer end of the shared inbound queue.
pub type Sender = UnboundedSender<Data>;

/// The reader end of the shared inbound queue.
pub type Receiver = UnboundedReceiver<Data>;

/// How many random ids registration draws before it gives up.
pub const ID_ATTEMPTS: u32 = 64;

/// The relay bus: the live relay connections by id, each with the writer of its outbound queue,
/// and the writer of the inbound queue that all of them share.
pub struct Communicator {
    rng: Rng,
    peers: HashMap<u32, UnboundedSender<String>>,
    sender: Sender,
}

impl Communicator {
    /// The ids of the live connections.
    pub closed spec fn live(&self) -> Set<u32> {
        self.peers@.dom()
    }

    /// The relay bus with no connection, and the reader of its shared inbound queue.
    pub fn new() -> (r: (Communicator, Receiver))
        ensures
            r.0.live() == Set::<u32>::empty(),
    {
        let (sender, receiver) = unbounded_channel();
        let communicator = Communicator { rng: new_rng(), peers: HashMap::new(), sender };
        (communicator, receiver)
    }

    /// The number of live connections.
    pub fn len(&self) -> (r: usize)
        ensures
            r == self.live().len(),
    {
        self.peers.len()
    }

    /// Whether `id` is the id of a live connection.
    pub fn contains(&self, id: u32) -> (r: bool)
        ensures
            r == self.live().contains(id),
    {
        self.peers.contains_key(&id)
    }

    /// Draws random ids until one is not in use; `None` when every draw was in use.
    fn generate_id(&self) -> (r: Option<u32>)
        ensures
            r matches Some(id) ==> !self.live().contains(id),
    {
        let mut attempt: u32 = 0;
        while attempt < ID_ATTEMPTS
            decreases ID_ATTEMPTS - attempt,
        {
            let random = random_u32(&self.rng);
            if !self.peers.contains_key(&random) {
                return Some(random);
            }
            attempt = attempt + 1;
        }
        None
    }

    /// Registers a new connection under a fresh id: the id, a writer of the shared inbound
    /// queue, and the reader of the connection's own outbound queue. The id is one that no live
    /// connection has, and the other connections keep theirs. `None`, with nothing changed,
    /// when no free id came up.
    pub fn add(&mut self) -> (r: Option<(u32, Sender, UnboundedReceiver<String>)>)
        ensures
            match r {
                Some((id, _, _)) => {
                    &&& !old(self).live().contains(id)
                    &&& final(self).live() == old(self).live().insert(id)
                },
                None => final(self).live() == old(self).live(),
            },
    {
        let id = match self.generate_id() {
            Some(id) => id,
            None => return None,
        };
        let (peer_sender, peer_receiver) = unbounded_channel();
        self.peers.insert(id, peer_sender);
        Some((id, clone_sender(&self.sender), peer_receiver))
    }

    /// Removes the connection `id`; nothing happens when there is none.
    pub fn remove(&mut self, id: u32)
        ensures
            final(self).live() == old(self).live().remove(id),
    {
        self.peers.remove(&id);
    }

    /// Queues `data` for the connection `id`. `false` when there is no such live connection,
    /// or when its queue is closed.
    pub fn send(&self, id: u32, data: String) -> (r: bool)
        ensures
            r ==> self.live().contains(id),
    {
        match self.peers.get(&id) {
            Some(sender) => queue_send(sender, data),
            None => false,
        }
    }
}

/// A change of the relay bus: a registration that was given an id, or the removal of an id.
pub enum BusEvent {
    Added(u32),
    Removed(u32),
}

/// The ids live on a bus that started empty, after `events`, as `add` and `remove` state them.
pub open spec fn live_after(events: Seq<BusEvent>) -> Set<u32>
    decreases events.len(),
{
    if events.len() == 0 {
        Set::empty()
    } else {
        let before = live_after(events.drop_last());
        match events.last() {
            BusEvent::Added(id) => before.insert(id),
            BusEvent::Removed(id) => before.remove(id),
        }
    }
}

/// Every registration in `events` was given an id that was not live at that moment, as `add`
/// guarantees.
pub open spec fn fresh_ids(events: Seq<BusEvent>) -> bool {
    forall|i: int|
        0 <= i < events.len() ==> match #[trigger] events[i] {
            BusEvent::Added(id) => !live_after(events.subrange(0, i)).contains(id),
            BusEvent::Removed(_) => true,
        }
}

/// `s` with every occurrence of `id` taken out.
pub open spec fn without(s: Seq<u32>, id: u32) -> Seq<u32>
    decreases s.len(),
{
    if s.len() == 0 {
        s
    } else {
        let rest = without(s.drop_last(), id);
        if s.last() == id {
            rest
        } else {
            rest.push(s.last())
        }
    }
}

/// The ids that the live connections hold after `events`, one for each connection, in order
/// of registration: a registration adds its connection, a removal ends every connection that
/// held that id.
pub open spec fn held_ids(events: Seq<BusEvent>) -> Seq<u32>
    decreases events.len(),
{
    if events.len() == 0 {
        Seq::empty()
    } else {
        let before = held_ids(events.drop_last());
        match events.last() {
            BusEvent::Added(id) => before.push(id),
            BusEvent::Removed(id) => without(before, id),
        }
    }
}

proof fn lemma_push_no_duplicates(s: Seq<u32>, x: u32)
    requires
        s.no_duplicates(),
        !s.contains(x),
    ensures
        s.push(x).no_duplicates(),
{
    let t = s.push(x);
    assert forall|i: int, j: int| 0 <= i < t.len() && 0 <= j < t.len() && i != j implies t[i] != t[j] by {
        if i < s.len() && j < s.len() {
            assert(t[i] == s[i] && t[j] == s[j]);
        } else if i < s.len() {
            assert(t[i] == s[i]);
        } else {
            assert(t[j] == s[j]);
        }
    }
}

proof fn lemma_without(s: Seq<u32>, id: u32)
    ensures
        forall|x: u32| #[trigger] without(s, id).contains(x) <==> (s.contains(x) && x != id),
        s.no_duplicates() ==> without(s, id).no_duplicates(),
    decreases s.len(),
{
    if s.len() > 0 {
        let init = s.drop_last();
        lemma_without(init, id);
        assert(s =~= init.push(s.last()));
        assert forall|x: u32| s.contains(x) <==> (init.contains(x) || x == s.last()) by {
            if s.contains(x) {
                let i = choose|i: int| 0 <= i < s.len() && s[i] == x;
                if i < init.len() {
                    assert(init[i] == x);
                }
            }
            if init.contains(x) {
                let i = choose|i: int| 0 <= i < init.len() && init[i] == x;
                assert(s[i] == x);
            }
        }
        let rest = without(init, id);
        if s.last() != id {
            assert forall|x: u32| rest.push(s.last()).contains(x) <==> (rest.contains(x) || x == s.last()) by {
                if rest.push(s.last()).contains(x) {
                    let i = choose|i: int| 0 <= i < rest.len() + 1 && rest.push(s.last())[i] == x;
                    if i < rest.len() {
                        assert(rest[i] == x);
                    }
                }
                if rest.contains(x) {
                    let i = choose|i: int| 0 <= i < rest.len() && rest[i] == x;
                    assert(rest.push(s.last())[i] == x);
                }
                assert(rest.push(s.last())[rest.len() as int] == s.last());
            }
            assert(without(s, id) == rest.push(s.last()));
            assert forall|x: u32| #[trigger] without(s, id).contains(x) <==> (s.contains(x) && x != id) by {
                assert(rest.contains(x) <==> (init.contains(x) && x != id));
            }
            if s.no_duplicates() {
                assert(init.no_duplicates()) by {
                    assert forall|i: int, j: int| 0 <= i < init.len() && 0 <= j < init.len() && i != j implies init[i] != init[j] by {
                        assert(init[i] == s[i] && init[j] == s[j]);
                    }
                }
                assert(!init.contains(s.last())) by {
                    if init.contains(s.last()) {
                        let i = choose|i: int| 0 <= i < init.len() && init[i] == s.last();
                        assert(s[i] == s[s.len() - 1]);
                    }
                }
                lemma_push_no_duplicates(rest, s.last());
            }
        } else {
            assert(without(s, id) == rest);
            assert forall|x: u32| #[trigger] without(s, id).contains(x) <==> (s.contains(x) && x != id) by {
                assert(rest.contains(x) <==> (init.contains(x) && x != id));
            }
            if s.no_duplicates() {
                assert(init.no_duplicates()) by {
                    assert forall|i: int, j: int| 0 <= i < init.len() && 0 <= j < init.len() && i != j implies init[i] != init[j] by {
                        assert(init[i] == s[i] && init[j] == s[j]);
                    }
                }
            }
        }
    }
}

/// Whatever sequence of registrations and removals the relay bus goes through, no two live
/// connections ever share an id: the ids that the live connections hold are pairwise distinct,
/// and they are exactly the ids that the bus has live.
pub proof fn lemma_ids_unique(events: Seq<BusEvent>)
    requires
        fresh_ids(events),
    ensures
        held_ids(events).no_duplicates(),
        held_ids(events).to_set() == live_after(events),
    decreases events.len(),
{
    if events.len() > 0 {
        let init = events.drop_last();
        assert(fresh_ids(init)) by {
            assert forall|i: int| 0 <= i < init.len() implies match #[trigger] init[i] {
                BusEvent::Added(id) => !live_after(init.subrange(0, i)).contains(id),
                BusEvent::Removed(_) => true,
            } by {
                assert(init[i] == events[i]);
                assert(init.subrange(0, i) =~= events.subrange(0, i));
            }
        }
        lemma_ids_unique(init);
        let before = held_ids(init);
        let n = events.len() - 1;
        assert(events.subrange(0, n) =~= init);
        match events.last() {
            BusEvent::Added(id) => {
                assert(events[n] == events.last());
                assert(!live_after(init).contains(id));
                assert(!before.contains(id)) by {
                    if before.contains(id) {
                        let i = choose|i: int| 0 <= i < before.len() && before[i] == id;
                        assert(before.to_set().contains(before[i]));
                    }
                }
                lemma_push_no_duplicates(before, id);
                before.lemma_push_to_set_commute(id);
            },
            BusEvent::Removed(id) => {
                lemma_without(before, id);
                assert(without(before, id).to_set() =~= live_after(init).remove(id)) by {
                    assert forall|x: u32| without(before, id).to_set().contains(x) <==> live_after(init).remove(id).contains(x) by {
                        assert(without(before, id).contains(x) <==> (before.contains(x) && x != id));
                        assert(before.to_set().contains(x) <==> before.contains(x));
                    }
                }
            },
        }
    }
}

/// A registration by `add` extends a trace of the bus: the trace stays one of fresh ids, and
/// the bus's live ids after the call are those of the longer trace.
pub proof fn lemma_add_extends_trace(
    events: Seq<BusEvent>,
    before: Communicator,
    after: Communicator,
    id: u32,
)
    requires
        fresh_ids(events),
        before.live() == live_after(events),
        !before.live().contains(id),
        after.live() == before.live().insert(id),
    ensures
        fresh_ids(events.push(BusEvent::Added(id))),
        after.live() == live_after(events.push(BusEvent::Added(id))),
{
    let longer = events.push(BusEvent::Added(id));
    assert(longer.drop_last() =~= events);
    assert forall|i: int| 0 <= i < longer.len() implies match #[trigger] longer[i] {
        BusEvent::Added(x) => !live_after(longer.subrange(0, i)).contains(x),
        BusEvent::Removed(_) => true,
    } by {
        if i < events.len() {
            assert(longer[i] == events[i]);
            assert(longer.subrange(0, i) =~= events.subrange(0, i));
        } else {
            assert(longer.subrange(0, i) =~= events);
        }
    }
}

/// A removal by `remove` extends a trace of the bus in the same way.
pub proof fn lemma_remove_extends_trace(
    events: Seq<BusEvent>,
    before: Communicator,
    after: Communicator,
    id: u32,
)
    requires
        fresh_ids(events),
        before.live() == live_after(events),
        after.live() == before.live().remove(id),
    ensures
        fresh_ids(events.push(BusEvent::Removed(id))),
        after.live() == live_after(events.push(BusEvent::Removed(id))),
{
    let longer = events.push(BusEvent::Removed(id));
    assert(longer.drop_last() =~= events);
    assert forall|i: int| 0 <= i < longer.len() implies match #[trigger] longer[i] {
        BusEvent::Added(x) => !live_after(longer.subrange(0, i)).contains(x),
        BusEvent::Removed(_) => true,
    } by {
        if i < events.len() {
            assert(longer[i] == events[i]);
            assert(longer.subrange(0, i) =~= events.subrange(0, i));
        }
    }
}

/// Once a connection has been removed, sending to its id fails: `send` succeeds only for a live
/// id, and after `remove(id)` the id is not live.
pub proof fn lemma_no_delivery_after_remove(before: Communicator, after: Communicator, id: u32)
    requires
        after.live() == before.live().remove(id),
    ensures
        !after.live().contains(id),
{
}

} // verus!
