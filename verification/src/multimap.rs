//! A multimap for tracking components across updates: during an update
//! values are appended under their keys; afterwards they can be iterated in
//! insertion order, and during the next update removed by key, values with
//! the same key coming out in the order they were inserted.
use vstd::prelude::*;
use std::collections::{HashMap, VecDeque};

verus! {

broadcast use vstd::std_specs::hash::group_hash_axioms;

/// A multimap that values are appended to.
pub struct AppendOnlyMultimap<V> {
    items: Vec<Option<V>>,
    m: HashMap<u64, VecDeque<usize>>,
}

/// A multimap that values are removed from.
pub struct RemoveOnlyMultimap<V> {
    items: Vec<Option<V>>,
    m: HashMap<u64, VecDeque<usize>>,
}

/// The queue of slot indices kept under `key`, empty where there is none.
pub open spec fn queue_in(qs: Map<u64, Seq<usize>>, key: u64) -> Seq<usize> {
    if qs.contains_key(key) {
        qs[key]
    } else {
        Seq::empty()
    }
}

/// How the queues index the slots: every queued index names a slot that
/// holds a value, each queue lists its indices in increasing (insertion)
/// order, and no index is queued under two keys.
pub open spec fn queues_ok<V>(items: Seq<Option<V>>, qs: Map<u64, Seq<usize>>) -> bool {
    &&& forall|k: u64, j: int|
        qs.contains_key(k) && 0 <= j < qs[k].len() ==> (#[trigger] qs[k][j]) < items.len() && items[qs[k][j] as int] is Some
    &&& forall|k: u64, i: int, j: int| qs.contains_key(k) && 0 <= i < j < qs[k].len() ==> #[trigger] qs[k][i] < #[trigger] qs[k][j]
    &&& forall|k1: u64, k2: u64, i: int, j: int|
        qs.contains_key(k1) && qs.contains_key(k2) && k1 != k2 && 0 <= i < qs[k1].len() && 0 <= j < qs[k2].len()
            ==> #[trigger] qs[k1][i] != #[trigger] qs[k2][j]
}

/// The values still held, in insertion order.
pub open spec fn live_values<V>(items: Seq<Option<V>>) -> Seq<V>
    decreases items.len(),
{
    if items.len() == 0 {
        Seq::empty()
    } else {
        live_values(items.drop_last()) + match items.last() {
            Some(v) => seq![v],
            None => Seq::empty(),
        }
    }
}

/// The queues of a map, by their views.
pub open spec fn queues_of(m: Map<u64, VecDeque<usize>>) -> Map<u64, Seq<usize>> {
    m.map_values(|q: VecDeque<usize>| q@)
}

/// Appending slot `n` under `key`, past every slot there is, keeps the
/// queues in order.
proof fn lemma_push_ok<V>(items: Seq<Option<V>>, qs: Map<u64, Seq<usize>>, key: u64, value: V)
    requires
        queues_ok(items, qs),
        items.len() <= usize::MAX,
    ensures
        queues_ok(items.push(Some(value)), qs.insert(key, queue_in(qs, key).push(items.len() as usize))),
{
    let items2 = items.push(Some(value));
    let qs2 = qs.insert(key, queue_in(qs, key).push(items.len() as usize));
    assert forall|k: u64, j: int| qs2.contains_key(k) && 0 <= j < qs2[k].len() implies (#[trigger] qs2[k][j]) < items2.len()
        && items2[qs2[k][j] as int] is Some by {
        if k == key && j == qs2[k].len() - 1 {
        } else {
            assert(qs.contains_key(k) && qs2[k][j] == qs[k][j]);
        }
    }
    assert forall|k: u64, i: int, j: int| qs2.contains_key(k) && 0 <= i < j < qs2[k].len() implies #[trigger] qs2[k][i]
        < #[trigger] qs2[k][j] by {
        if k == key && j == qs2[k].len() - 1 {
            assert(qs.contains_key(k) && qs2[k][i] == qs[k][i]);
        } else {
            assert(qs.contains_key(k) && qs2[k][i] == qs[k][i] && qs2[k][j] == qs[k][j]);
        }
    }
    assert forall|k1: u64, k2: u64, i: int, j: int|
        qs2.contains_key(k1) && qs2.contains_key(k2) && k1 != k2 && 0 <= i < qs2[k1].len() && 0 <= j < qs2[k2].len()
            implies #[trigger] qs2[k1][i] != #[trigger] qs2[k2][j] by {
        if k1 == key && i == qs2[k1].len() - 1 {
            assert(qs.contains_key(k2) && qs2[k2][j] == qs[k2][j]);
        } else if k2 == key && j == qs2[k2].len() - 1 {
            assert(qs.contains_key(k1) && qs2[k1][i] == qs[k1][i]);
        } else {
            assert(qs.contains_key(k1) && qs2[k1][i] == qs[k1][i]);
            assert(qs.contains_key(k2) && qs2[k2][j] == qs[k2][j]);
        }
    }
}

/// Taking the slot at the front of the queue under `key` keeps the queues
/// in order.
proof fn lemma_pop_ok<V>(items: Seq<Option<V>>, qs: Map<u64, Seq<usize>>, key: u64)
    requires
        queues_ok(items, qs),
        queue_in(qs, key).len() > 0,
    ensures
        queues_ok(items.update(queue_in(qs, key)[0] as int, None), qs.insert(key, queue_in(qs, key).drop_first())),
{
    let q = queue_in(qs, key);
    let i = q[0];
    assert(qs.contains_key(key));
    let items2 = items.update(i as int, None);
    let qs2 = qs.insert(key, q.drop_first());
    assert forall|k: u64, j: int| qs2.contains_key(k) && 0 <= j < qs2[k].len() implies (#[trigger] qs2[k][j]) < items2.len()
        && items2[qs2[k][j] as int] is Some by {
        if k == key {
            assert(qs2[k][j] == qs[k][j + 1]);
            assert(qs[k][0] < qs[k][j + 1]);
        } else {
            assert(qs2[k][j] == qs[k][j]);
            assert(qs[k][j] != qs[key][0]);
        }
    }
    assert forall|k: u64, a: int, b: int| qs2.contains_key(k) && 0 <= a < b < qs2[k].len() implies #[trigger] qs2[k][a]
        < #[trigger] qs2[k][b] by {
        if k == key {
            assert(qs2[k][a] == qs[k][a + 1] && qs2[k][b] == qs[k][b + 1]);
        } else {
            assert(qs2[k][a] == qs[k][a] && qs2[k][b] == qs[k][b]);
        }
    }
    assert forall|k1: u64, k2: u64, a: int, b: int|
        qs2.contains_key(k1) && qs2.contains_key(k2) && k1 != k2 && 0 <= a < qs2[k1].len() && 0 <= b < qs2[k2].len()
            implies #[trigger] qs2[k1][a] != #[trigger] qs2[k2][b] by {
        let a1 = if k1 == key { a + 1 } else { a };
        let b1 = if k2 == key { b + 1 } else { b };
        assert(qs2[k1][a] == qs[k1][a1]);
        assert(qs2[k2][b] == qs[k2][b1]);
    }
}

impl<V> AppendOnlyMultimap<V> {
    /// The slots, in insertion order.
    pub closed spec fn items_v(&self) -> Seq<Option<V>> {
        self.items@
    }

    /// The slot indices under each key, in insertion order.
    pub closed spec fn queues_v(&self) -> Map<u64, Seq<usize>> {
        queues_of(self.m@)
    }

    /// The queues index the slots as [`queues_ok`] says.
    pub open spec fn wf(&self) -> bool {
        queues_ok(self.items_v(), self.queues_v())
    }

    /// An empty multimap.
    pub fn new() -> (r: AppendOnlyMultimap<V>)
        ensures
            r.wf(),
            r.items_v().len() == 0,
            r.queues_v() == Map::<u64, Seq<usize>>::empty(),
    {
        let r = AppendOnlyMultimap { items: Vec::new(), m: HashMap::new() };
        assert(r.queues_v() =~= Map::<u64, Seq<usize>>::empty());
        r
    }

    /// Appends a value under a key: it goes into a new last slot, whose
    /// index joins the end of the key's queue.
    pub fn push_back(&mut self, key: u64, value: V)
        requires
            old(self).wf(),
        ensures
            final(self).wf(),
            final(self).items_v() == old(self).items_v().push(Some(value)),
            final(self).queues_v() == old(self).queues_v().insert(
                key,
                queue_in(old(self).queues_v(), key).push(old(self).items_v().len() as usize),
            ),
    {
        let ghost items0 = self.items@;
        let ghost qs0 = self.queues_v();
        let index = self.items.len();
        self.items.push(Some(value));
        let mut q = match self.m.remove(&key) {
            Some(q) => q,
            None => VecDeque::new(),
        };
        assert(q@ == queue_in(qs0, key));
        q.push_back(index);
        self.m.insert(key, q);
        assert(self.queues_v() =~= qs0.insert(key, queue_in(qs0, key).push(index)));
        proof {
            lemma_push_ok(items0, qs0, key, value);
        }
    }

    /// The multimap, to remove values from.
    pub fn into_remove_only(self) -> (r: RemoveOnlyMultimap<V>)
        ensures
            r.items_v() == self.items_v(),
            r.queues_v() == self.queues_v(),
    {
        RemoveOnlyMultimap { items: self.items, m: self.m }
    }
}

impl<V> RemoveOnlyMultimap<V> {
    /// The slots, in insertion order.
    pub closed spec fn items_v(&self) -> Seq<Option<V>> {
        self.items@
    }

    /// The slot indices under each key, in insertion order.
    pub closed spec fn queues_v(&self) -> Map<u64, Seq<usize>> {
        queues_of(self.m@)
    }

    /// The queues index the slots as [`queues_ok`] says.
    pub open spec fn wf(&self) -> bool {
        queues_ok(self.items_v(), self.queues_v())
    }

    /// An empty multimap.
    pub fn new() -> (r: RemoveOnlyMultimap<V>)
        ensures
            r.wf(),
            r.items_v().len() == 0,
            r.queues_v() == Map::<u64, Seq<usize>>::empty(),
    {
        let r = RemoveOnlyMultimap { items: Vec::new(), m: HashMap::new() };
        assert(r.queues_v() =~= Map::<u64, Seq<usize>>::empty());
        r
    }

    /// Removes the value inserted first under `key` among those still held:
    /// the slot at the front of the key's queue is emptied and leaves the
    /// queue. Without such a slot nothing changes and nothing is returned.
    pub fn pop_front(&mut self, key: &u64) -> (r: Option<V>)
        requires
            old(self).wf(),
        ensures
            final(self).wf(),
            queue_in(old(self).queues_v(), *key).len() > 0 ==> {
                let i = queue_in(old(self).queues_v(), *key)[0] as int;
                &&& r is Some
                &&& r == old(self).items_v()[i]
                &&& final(self).items_v() == old(self).items_v().update(i, None)
                &&& final(self).queues_v() == old(self).queues_v().insert(
                    *key,
                    queue_in(old(self).queues_v(), *key).drop_first(),
                )
            },
            queue_in(old(self).queues_v(), *key).len() == 0 ==> r is None && final(self).items_v()
                == old(self).items_v() && final(self).queues_v() == old(self).queues_v(),
    {
        let ghost items0 = self.items@;
        let ghost qs0 = self.queues_v();
        match self.m.remove(key) {
            None => {
                assert(self.queues_v() =~= qs0);
                None
            },
            Some(mut q) => {
                assert(q@ == queue_in(qs0, *key));
                let front = q.pop_front();
                self.m.insert(*key, q);
                match front {
                    None => {
                        assert(self.queues_v() =~= qs0);
                        None
                    },
                    Some(i) => {
                        assert(self.queues_v() =~= qs0.insert(*key, queue_in(qs0, *key).drop_first()));
                        proof {
                            lemma_pop_ok(items0, qs0, *key);
                        }
                        self.items.push(None);
                        let taken = self.items.swap_remove(i);
                        assert(self.items@ =~= items0.update(i as int, None));
                        taken
                    },
                }
            },
        }
    }

    /// The number of slots, held or emptied.
    pub fn slot_count(&self) -> (r: usize)
        ensures
            r == self.items_v().len(),
    {
        self.items.len()
    }

    /// The value in slot `i`, to change in place, if the slot holds one:
    /// values are reached in insertion order by going through the slots.
    pub fn slot_mut(&mut self, i: usize) -> (r: Option<&mut V>)
        requires
            i < old(self).items_v().len(),
        ensures
            old(self).items_v()[i as int] is None ==> r is None && final(self).items_v() == old(self).items_v(),
            old(self).items_v()[i as int] matches Some(v) ==> r matches Some(x) && *x == v
                && final(self).items_v() == old(self).items_v().update(i as int, Some(*final(x))),
            final(self).queues_v() == old(self).queues_v(),
            old(self).wf() ==> final(self).wf(),
    {
        match &mut self.items[i] {
            Some(v) => Some(v),
            None => None,
        }
    }

    /// The values still held, in insertion order.
    pub fn iter(&self) -> (r: Vec<&V>)
        ensures
            r@.len() == live_values(self.items_v()).len(),
            forall|k: int| 0 <= k < r@.len() ==> *#[trigger] r@[k] == live_values(self.items_v())[k],
    {
        let mut r: Vec<&V> = Vec::new();
        let mut i: usize = 0;
        while i < self.items.len()
            invariant
                i <= self.items@.len(),
                r@.len() == live_values(self.items@.take(i as int)).len(),
                forall|k: int| 0 <= k < r@.len() ==> *#[trigger] r@[k] == live_values(self.items@.take(i as int))[k],
            decreases self.items@.len() - i,
        {
            assert(self.items@.take(i + 1).drop_last() =~= self.items@.take(i as int));
            match &self.items[i] {
                Some(v) => {
                    r.push(v);
                },
                None => {},
            }
            i += 1;
        }
        assert(self.items@.take(self.items@.len() as int) =~= self.items@);
        r
    }
}

/// Values under the same key come out in the order they were inserted:
/// what one removal takes was inserted before whatever the next removal
/// under that key takes, and every removal under a key with a queued slot
/// gives a value.
pub proof fn lemma_pop_order<V>(items: Seq<Option<V>>, qs: Map<u64, Seq<usize>>, key: u64)
    requires
        queues_ok(items, qs),
        queue_in(qs, key).len() > 1,
    ensures
        ({
            let q = queue_in(qs, key);
            let qs2 = qs.insert(key, q.drop_first());
            &&& items[q[0] as int] is Some
            &&& queue_in(qs2, key)[0] > q[0]
            &&& items.update(q[0] as int, None)[queue_in(qs2, key)[0] as int] is Some
        }),
{
    let q = queue_in(qs, key);
    assert(qs.contains_key(key));
    assert(q[0] < q[1]);
    lemma_pop_ok(items, qs, key);
    let qs2 = qs.insert(key, q.drop_first());
    assert(qs2.contains_key(key) && qs2[key][0] == q[1]);
}

/// The state of a component multimap (its slots and queues) and the
/// decisions made so far while matching children against it.
pub type ReuseState<V> = (Seq<Option<(u64, V)>>, Map<u64, Seq<usize>>, Seq<Option<V>>);

/// Matches the children, each a (key, type) pair, one by one against the
/// components of the last update, each held as (type, value) under its key:
/// a child takes out the first component still held under its key, and
/// keeps it where it is of the child's type; otherwise that component is
/// dropped and the child starts afresh (`None`).
pub open spec fn reuse_decisions<V>(
    items: Seq<Option<(u64, V)>>,
    qs: Map<u64, Seq<usize>>,
    children: Seq<(u64, u64)>,
) -> ReuseState<V>
    decreases children.len(),
{
    if children.len() == 0 {
        (items, qs, Seq::empty())
    } else {
        let before = reuse_decisions(items, qs, children.drop_last());
        let child = children.last();
        let q = queue_in(before.1, child.0);
        if q.len() > 0 {
            let slot = before.0[q[0] as int];
            let kept = match slot {
                Some(e) => if e.0 == child.1 {
                    Some(e.1)
                } else {
                    None
                },
                None => None,
            };
            (before.0.update(q[0] as int, None), before.1.insert(child.0, q.drop_first()), before.2.push(kept))
        } else {
            (before.0, before.1, before.2.push(None))
        }
    }
}

/// Decides, for each child of a component in turn, whether it keeps the
/// component it had in the last update: the child, a (key, type) pair, takes
/// the first component still held under its key out of `prev`, and gets its
/// value where the component is of the child's type, or `None` where there
/// is no such component or it is of another type (the component is then
/// dropped). What is left in `prev` afterwards is what no child kept.
pub fn reconcile<V>(prev: &mut RemoveOnlyMultimap<(u64, V)>, children: &[(u64, u64)]) -> (r: Vec<Option<V>>)
    requires
        old(prev).wf(),
    ensures
        final(prev).wf(),
        ({
            let d = reuse_decisions(old(prev).items_v(), old(prev).queues_v(), children@);
            &&& r@ == d.2
            &&& final(prev).items_v() == d.0
            &&& final(prev).queues_v() == d.1
        }),
{
    let ghost items0 = prev.items_v();
    let ghost qs0 = prev.queues_v();
    let mut out: Vec<Option<V>> = Vec::new();
    let mut i: usize = 0;
    while i < children.len()
        invariant
            i <= children@.len(),
            prev.wf(),
            ({
                let d = reuse_decisions(items0, qs0, children@.take(i as int));
                &&& out@ == d.2
                &&& prev.items_v() == d.0
                &&& prev.queues_v() == d.1
            }),
        decreases children@.len() - i,
    {
        let (key, ty) = children[i];
        assert(children@.take(i + 1).drop_last() =~= children@.take(i as int));
        assert(children@.take(i + 1).last() == children@[i as int]);
        let ghost qb = prev.queues_v();
        let ghost ib = prev.items_v();
        let popped = prev.pop_front(&key);
        let kept = match popped {
            Some(e) => if e.0 == ty {
                Some(e.1)
            } else {
                None
            },
            None => None,
        };
        proof {
            if queue_in(qb, key).len() > 0 {
                assert(ib[queue_in(qb, key)[0] as int] == popped);
            }
        }
        out.push(kept);
        i += 1;
    }
    assert(children@.take(children@.len() as int) =~= children@);
    out
}

} // verus!
