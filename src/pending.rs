//! Correlation of responses with requests: identifiers are issued in increasing
//! order, each with a completion slot that a response (or a timeout) takes away.
use vstd::prelude::*;
use std::collections::HashMap;

verus! {

broadcast use vstd::std_specs::hash::group_hash_axioms;

/// Method name of the notification whose payload is forwarded to the application.
pub open spec fn diagnostics_method() -> Seq<char> {
    seq!['t', 'e', 'x', 't', 'D', 'o', 'c', 'u', 'm', 'e', 'n', 't', '/', 'p', 'u', 'b', 'l', 'i', 's', 'h', 'D', 'i', 'a', 'g', 'n', 'o', 's', 't', 'i', 'c', 's']
}

/// Where an inbound frame goes.
pub enum Delivery<T> {
    /// The response to a waiting request: the slot that waits for it.
    Response(T),
    /// A diagnostics notification, for the application's event sink.
    Diagnostics,
    /// A response that nobody waits for (any more), or another notification.
    Dropped,
}

/// Requests in flight: each waiting identifier with its completion slot.
pub struct PendingRequests<T> {
    last_id: u64,
    slots: HashMap<u64, T>,
}

/// The table after registering `items` in order, the last identifier issued
/// before being `last`: the `k`-th item waits under `last + 1 + k`.
pub open spec fn registered<T>(m: Map<u64, T>, last: nat, items: Seq<T>) -> Map<u64, T>
    decreases items.len(),
{
    if items.len() == 0 {
        m
    } else {
        registered(m, last, items.drop_last()).insert((last + items.len()) as u64, items.last())
    }
}

/// What resolving `ids` one after the other hands out, from table `m`.
pub open spec fn resolve_all<T>(m: Map<u64, T>, ids: Seq<u64>) -> Seq<Option<T>>
    decreases ids.len(),
{
    if ids.len() == 0 {
        Seq::empty()
    } else {
        let first = if m.contains_key(ids[0]) {
            Some(m[ids[0]])
        } else {
            None
        };
        seq![first] + resolve_all(m.remove(ids[0]), ids.drop_first())
    }
}

impl<T> PendingRequests<T> {
    /// The last identifier issued; 0 before the first.
    pub closed spec fn last_id(&self) -> nat {
        self.last_id as nat
    }

    /// The waiting identifiers and their slots.
    pub closed spec fn waiting(&self) -> Map<u64, T> {
        self.slots@
    }

    /// Every waiting identifier has been issued.
    pub closed spec fn wf(&self) -> bool {
        forall|id: u64| #[trigger] self.slots@.contains_key(id) ==> 1 <= id <= self.last_id
    }

    pub fn new() -> (r: Self)
        ensures
            r.wf(),
            r.last_id() == 0,
            r.waiting() == Map::<u64, T>::empty(),
    {
        PendingRequests { last_id: 0, slots: HashMap::new() }
    }

    /// Issues the next identifier and lets `slot` wait under it. `None` once
    /// every identifier has been issued.
    pub fn register(&mut self, slot: T) -> (r: Option<u64>)
        requires
            old(self).wf(),
        ensures
            final(self).wf(),
            old(self).last_id() < u64::MAX ==> {
                &&& r == Some((old(self).last_id() + 1) as u64)
                &&& final(self).last_id() == old(self).last_id() + 1
                &&& final(self).waiting() == old(self).waiting().insert(
                    (old(self).last_id() + 1) as u64,
                    slot,
                )
            },
            old(self).last_id() == u64::MAX ==> {
                &&& r is None
                &&& final(self).last_id() == old(self).last_id()
                &&& final(self).waiting() == old(self).waiting()
            },
    {
        if self.last_id == u64::MAX {
            return None;
        }
        let id = self.last_id + 1;
        self.last_id = id;
        self.slots.insert(id, slot);
        Some(id)
    }

    /// Takes the slot waiting under `id`, if any: for a response that arrived,
    /// or for a request whose caller stopped waiting.
    pub fn resolve(&mut self, id: u64) -> (r: Option<T>)
        requires
            old(self).wf(),
        ensures
            final(self).wf(),
            final(self).last_id() == old(self).last_id(),
            final(self).waiting() == old(self).waiting().remove(id),
            r == (if old(self).waiting().contains_key(id) {
                Some(old(self).waiting()[id])
            } else {
                None
            }),
    {
        self.slots.remove(&id)
    }

    /// Number of requests in flight.
    pub fn in_flight(&self) -> (r: usize)
        ensures
            r == self.waiting().len(),
    {
        self.slots.len()
    }

    /// Routes an inbound frame by its `id` (when it is an unsigned integer) and
    /// its `method`. A frame with an id goes to the slot waiting under it, or is
    /// dropped when none waits; a frame without one never touches the table, and
    /// is handed to the sink once when it is a diagnostics notification.
    pub fn dispatch(&mut self, id: Option<u64>, method: Option<&str>) -> (r: Delivery<T>)
        requires
            old(self).wf(),
        ensures
            final(self).wf(),
            final(self).last_id() == old(self).last_id(),
            match id {
                Some(i) => {
                    &&& final(self).waiting() == old(self).waiting().remove(i)
                    &&& r == (if old(self).waiting().contains_key(i) {
                        Delivery::Response(old(self).waiting()[i])
                    } else {
                        Delivery::<T>::Dropped
                    })
                },
                None => {
                    &&& final(self).waiting() == old(self).waiting()
                    &&& r == (match method {
                        Some(m) => if m@ == diagnostics_method() {
                            Delivery::<T>::Diagnostics
                        } else {
                            Delivery::<T>::Dropped
                        },
                        None => Delivery::<T>::Dropped,
                    })
                },
            },
    {
        match id {
            Some(i) => match self.resolve(i) {
                Some(slot) => Delivery::Response(slot),
                None => Delivery::Dropped,
            },
            None => match method {
                Some(m) => if is_diagnostics_method(m) {
                    Delivery::Diagnostics
                } else {
                    Delivery::Dropped
                },
                None => Delivery::Dropped,
            },
        }
    }
}

/// Whether `m` names the diagnostics notification.
pub fn is_diagnostics_method(m: &str) -> (r: bool)
    ensures
        r == (m@ == diagnostics_method()),
{
    let expected = "textDocument/publishDiagnostics";
    proof {
        reveal_strlit("textDocument/publishDiagnostics");
    }
    assert(expected@ =~= diagnostics_method());
    let n = m.unicode_len();
    if n != expected.unicode_len() {
        return false;
    }
    let mut k: usize = 0;
    while k < n
        invariant
            n == m@.len(),
            n == expected@.len(),
            expected@ == diagnostics_method(),
            0 <= k <= n,
            m@.subrange(0, k as int) =~= expected@.subrange(0, k as int),
        decreases n - k,
    {
        if m.get_char(k) != expected.get_char(k) {
            assert(m@[k as int] != diagnostics_method()[k as int]);
            return false;
        }
        k = k + 1;
    }
    assert(m@ =~= m@.subrange(0, n as int));
    assert(expected@ =~= expected@.subrange(0, n as int));
    true
}

/// The `k`-th of a run of identifiers issued after `last`.
pub open spec fn issued_id(last: nat, k: int) -> u64 {
    (last + 1 + k) as u64
}

proof fn lemma_registered_holds<T>(m: Map<u64, T>, last: nat, items: Seq<T>, k: int)
    requires
        last + items.len() <= u64::MAX,
        0 <= k < items.len(),
    ensures
        registered(m, last, items).contains_key(issued_id(last, k)),
        registered(m, last, items)[issued_id(last, k)] == items[k],
    decreases items.len(),
{
    if k < items.len() - 1 {
        lemma_registered_holds(m, last, items.drop_last(), k);
    }
}

proof fn lemma_resolve_each<T>(m: Map<u64, T>, last: nat, items: Seq<T>, order: Seq<int>)
    requires
        last + items.len() <= u64::MAX,
        forall|j: int| 0 <= j < order.len() ==> 0 <= #[trigger] order[j] < items.len(),
        forall|a: int, b: int| 0 <= a < b < order.len() ==> order[a] != order[b],
        forall|j: int|
            0 <= j < order.len() ==> m.contains_key(issued_id(last, #[trigger] order[j]))
                && m[issued_id(last, order[j])] == items[order[j]],
    ensures
        resolve_all(m, order.map_values(|k: int| issued_id(last, k))) == order.map_values(
            |k: int| Some(items[k]),
        ),
    decreases order.len(),
{
    let ids = order.map_values(|k: int| issued_id(last, k));
    if order.len() > 0 {
        let rest = order.drop_first();
        let m1 = m.remove(ids[0]);
        assert forall|j: int| 0 <= j < rest.len() implies m1.contains_key(
            issued_id(last, #[trigger] rest[j]),
        ) && m1[issued_id(last, rest[j])] == items[rest[j]] by {
            assert(rest[j] == order[j + 1]);
            assert(order[0] != order[j + 1]);
        }
        assert forall|a: int, b: int| 0 <= a < b < rest.len() implies rest[a] != rest[b] by {
            assert(rest[a] == order[a + 1] && rest[b] == order[b + 1]);
        }
        assert forall|j: int| 0 <= j < rest.len() implies 0 <= #[trigger] rest[j] < items.len() by {
            assert(rest[j] == order[j + 1]);
        }
        lemma_resolve_each(m1, last, items, rest);
        assert(ids.drop_first() =~= rest.map_values(|k: int| issued_id(last, k)));
        assert(order.map_values(|k: int| Some(items[k])) =~= seq![Some(items[order[0]])]
            + rest.map_values(|k: int| Some(items[k])));
    } else {
        assert(order.map_values(|k: int| Some(items[k])) =~= Seq::<Option<T>>::empty());
    }
}

/// `registered` is what successive `register` calls build: one more item
/// waits under the identifier after those issued before it, and the slots
/// already waiting stay as they were.
pub proof fn lemma_register_one_more<T>(m: Map<u64, T>, last: nat, items: Seq<T>, slot: T)
    ensures
        registered(m, last, items.push(slot)) == registered(m, last, items).insert(
            (last + items.len() + 1) as u64,
            slot,
        ),
{
    assert(items.push(slot).drop_last() =~= items);
}

/// Responses are matched by identifier, not by position: after `items` have
/// been registered one after the other, resolving their identifiers in any
/// order (for instance the reverse one) hands each caller its own slot.
pub proof fn lemma_each_caller_gets_own_slot<T>(
    m: Map<u64, T>,
    last: nat,
    items: Seq<T>,
    order: Seq<int>,
)
    requires
        last + items.len() <= u64::MAX,
        forall|j: int| 0 <= j < order.len() ==> 0 <= #[trigger] order[j] < items.len(),
        forall|a: int, b: int| 0 <= a < b < order.len() ==> order[a] != order[b],
    ensures
        resolve_all(
            registered(m, last, items),
            order.map_values(|k: int| issued_id(last, k)),
        ) == order.map_values(|k: int| Some(items[k])),
{
    let r = registered(m, last, items);
    assert forall|j: int| 0 <= j < order.len() implies r.contains_key(
        issued_id(last, #[trigger] order[j]),
    ) && r[issued_id(last, order[j])] == items[order[j]] by {
        lemma_registered_holds(m, last, items, order[j]);
    }
    lemma_resolve_each(r, last, items, order);
}

/// A slot taken away (its caller timed out) is not handed out again: whatever
/// is registered afterwards waits under other identifiers, so a late response
/// under the old identifier finds nothing and is dropped.
pub proof fn lemma_abandoned_id_stays_free<T>(m: Map<u64, T>, last: nat, id: u64, items: Seq<T>)
    requires
        id <= last,
        last + items.len() <= u64::MAX,
    ensures
        !registered(m.remove(id), last, items).contains_key(id),
    decreases items.len(),
{
    if items.len() > 0 {
        lemma_abandoned_id_stays_free(m, last, id, items.drop_last());
    }
}

} // verus!
