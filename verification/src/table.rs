//! The streams of a connection, found by identifier.

use vstd::prelude::*;

use crate::error::OperationError;
use crate::frame::StreamId;
use crate::stream::StreamState;
use crate::task::WakerId;

verus! {

/// Where a sequence of streams holds the given identifier.
spec fn position(entries: Seq<StreamState>, id: int) -> int {
    choose|i: int| 0 <= i < entries.len() && (#[trigger] entries[i]).id.0 == id
}

/// Whether a sequence of streams holds the given identifier.
spec fn holds(entries: Seq<StreamState>, id: int) -> bool {
    exists|i: int| 0 <= i < entries.len() && (#[trigger] entries[i]).id.0 == id
}

/// Whether no identifier occurs twice.
spec fn distinct(entries: Seq<StreamState>) -> bool {
    forall|i: int, j: int|
        0 <= i < j < entries.len() ==> (#[trigger] entries[i]).id.0 != (#[trigger] entries[j]).id.0
}

/// The streams by identifier.
spec fn by_id(entries: Seq<StreamState>) -> Map<int, StreamState> {
    Map::new(|id: int| holds(entries, id), |id: int| entries[position(entries, id)])
}

/// Each entry is found under its own identifier.
proof fn lemma_found(entries: Seq<StreamState>, i: int)
    requires
        distinct(entries),
        0 <= i < entries.len(),
    ensures
        by_id(entries).dom().contains(entries[i].id.0 as int),
        by_id(entries)[entries[i].id.0 as int] == entries[i],
{
    let id = entries[i].id.0 as int;
    assert(holds(entries, id));
    let j = position(entries, id);
    assert(entries[j].id.0 == entries[i].id.0);
}

/// Whatever is found is an entry.
proof fn lemma_entry(entries: Seq<StreamState>, id: int) -> (i: int)
    requires
        by_id(entries).dom().contains(id),
    ensures
        0 <= i < entries.len(),
        entries[i].id.0 == id,
        by_id(entries)[id] == entries[i],
{
    assert(holds(entries, id));
    position(entries, id)
}

/// A change of each entry that keeps its identifier is the same change of each stream.
proof fn lemma_each_changed(
    before: Seq<StreamState>,
    after: Seq<StreamState>,
    change: spec_fn(StreamState) -> StreamState,
)
    requires
        distinct(before),
        after.len() == before.len(),
        forall|i: int| 0 <= i < before.len() ==> #[trigger] after[i] == change(before[i]),
        forall|i: int|
            0 <= i < before.len() ==> change(#[trigger] before[i]).id == before[i].id,
    ensures
        distinct(after),
        by_id(after) == by_id(before).map_values(change),
{
    assert forall|i: int, j: int| 0 <= i < j < after.len() implies (#[trigger] after[i]).id.0 != (
    #[trigger] after[j]).id.0 by {
        assert(before[i].id.0 != before[j].id.0);
    }
    assert forall|id: int| by_id(after).dom().contains(id) == #[trigger] by_id(
        before,
    ).dom().contains(id) by {
        if by_id(before).dom().contains(id) {
            let i = lemma_entry(before, id);
            assert(after[i] == change(before[i]));
            lemma_found(after, i);
        } else if by_id(after).dom().contains(id) {
            let i = lemma_entry(after, id);
            assert(change(before[i]).id == before[i].id);
            lemma_found(before, i);
        }
    }
    assert forall|id: int| #[trigger] by_id(before).dom().contains(id) implies by_id(after)[id]
        == change(by_id(before)[id]) by {
        let i = lemma_entry(before, id);
        assert(after[i] == change(before[i]));
        lemma_found(after, i);
    }
    assert(by_id(after) =~= by_id(before).map_values(change));
}

/// The streams of a connection, at most one for each identifier.
#[derive(Debug)]
pub(crate) struct StreamTable {
    entries: Vec<StreamState>,
}

impl View for StreamTable {
    type V = Map<int, StreamState>;

    closed spec fn view(&self) -> Map<int, StreamState> {
        by_id(self.entries@)
    }
}

impl StreamTable {
    /// No identifier occurs twice.
    pub(crate) closed spec fn wf(self) -> bool {
        distinct(self.entries@)
    }

    /// A table without streams.
    pub(crate) fn new() -> (table: StreamTable)
        ensures
            table.wf(),
            table@ == Map::<int, StreamState>::empty(),
    {
        let table = StreamTable { entries: Vec::new() };
        assert(table@ =~= Map::<int, StreamState>::empty());
        table
    }

    /// Where the stream stands, if it is there.
    fn find(&self, id: StreamId) -> (found: Option<usize>)
        requires
            self.wf(),
        ensures
            match found {
                Some(i) => i < self.entries@.len() && self.entries@[i as int].id == id
                    && self@.dom().contains(id.0 as int) && self@[id.0 as int]
                    == self.entries@[i as int],
                None => !self@.dom().contains(id.0 as int),
            },
    {
        let mut i: usize = 0;
        while i < self.entries.len()
            invariant
                i <= self.entries@.len(),
                self.wf(),
                forall|j: int| 0 <= j < i ==> (#[trigger] self.entries@[j]).id.0 != id.0,
            decreases self.entries@.len() - i,
        {
            if self.entries[i].id.0 == id.0 {
                proof {
                    lemma_found(self.entries@, i as int);
                }
                return Some(i);
            }
            i += 1;
        }
        None
    }

    /// The stream with the given identifier, if it is there.
    pub(crate) fn get(&self, id: StreamId) -> (found: Option<StreamState>)
        requires
            self.wf(),
        ensures
            found is Some <==> self@.dom().contains(id.0 as int),
            found matches Some(st) ==> st == self@[id.0 as int] && st.id == id,
    {
        match self.find(id) {
            Some(i) => Some(self.entries[i]),
            None => None,
        }
    }

    /// Puts the stream under its identifier, in place of what stood there.
    pub(crate) fn insert(&mut self, st: StreamState)
        requires
            old(self).wf(),
        ensures
            final(self).wf(),
            final(self)@ == old(self)@.insert(st.id.0 as int, st),
    {
        let ghost before = self.entries@;
        match self.find(st.id) {
            Some(i) => {
                self.entries.set(i, st);
                proof {
                    lemma_found(self.entries@, i as int);
                }
            },
            None => {
                proof {
                    assert forall|j: int| 0 <= j < before.len() implies (
                    #[trigger] before[j]).id.0 != st.id.0 by {
                        lemma_found(before, j);
                    }
                }
                self.entries.push(st);
                proof {
                    lemma_found(self.entries@, before.len() as int);
                }
            },
        }
        proof {
            let after = self.entries@;
            assert forall|id: int| #[trigger]
                by_id(after).dom().contains(id) == by_id(before).insert(
                    st.id.0 as int,
                    st,
                ).dom().contains(id) by {
                if by_id(after).dom().contains(id) {
                    let i = lemma_entry(after, id);
                    if id != st.id.0 {
                        assert(after[i] == before[i]);
                        lemma_found(before, i);
                    }
                } else if by_id(before).dom().contains(id) {
                    let i = lemma_entry(before, id);
                    lemma_found(after, i);
                }
            }
            assert forall|id: int| #[trigger] by_id(after).dom().contains(id) implies by_id(
                after,
            )[id] == by_id(before).insert(st.id.0 as int, st)[id] by {
                let i = lemma_entry(after, id);
                if id != st.id.0 {
                    assert(after[i] == before[i]);
                    lemma_found(before, i);
                }
            }
            assert(by_id(after) =~= by_id(before).insert(st.id.0 as int, st));
        }
    }

    /// Takes the stream with the given identifier out, if it is there.
    pub(crate) fn remove(&mut self, id: StreamId)
        requires
            old(self).wf(),
        ensures
            final(self).wf(),
            final(self)@ == old(self)@.remove(id.0 as int),
    {
        let ghost before = self.entries@;
        if let Some(i) = self.find(id) {
            self.entries.remove(i);
            proof {
                let after = self.entries@;
                assert(after == before.remove(i as int));
                assert forall|j: int| 0 <= j < after.len() implies #[trigger] after[j] == before[if j
                    < i {
                    j
                } else {
                    j + 1
                }] by {}
                assert(distinct(after));
                assert forall|k: int| #[trigger]
                    by_id(after).dom().contains(k) == by_id(before).remove(
                        id.0 as int,
                    ).dom().contains(k) by {
                    if by_id(after).dom().contains(k) {
                        let j = lemma_entry(after, k);
                        lemma_found(before, if j < i { j } else { j + 1 });
                    } else if by_id(before).dom().contains(k) && k != id.0 {
                        let j = lemma_entry(before, k);
                        let m = if j < i { j } else { j - 1 };
                        assert(after[m] == before[j]);
                        lemma_found(after, m);
                    }
                }
                assert forall|k: int| #[trigger] by_id(after).dom().contains(k) implies by_id(
                    after,
                )[k] == by_id(before).remove(id.0 as int)[k] by {
                    let j = lemma_entry(after, k);
                    lemma_found(before, if j < i { j } else { j + 1 });
                }
                assert(by_id(after) =~= by_id(before).remove(id.0 as int));
            }
        } else {
            assert(self@ =~= old(self)@.remove(id.0 as int));
        }
    }

    /// Whether the windows of the open streams stay within `limit` when they move by `delta`.
    pub(crate) fn shift_fits(&self, delta: i64, limit: i64) -> (fits: bool)
        requires
            self.wf(),
            forall|id: int| #[trigger]
                self@.dom().contains(id) ==> i64::MIN <= self@[id].send_window + delta <= i64::MAX,
        ensures
            fits <==> forall|id: int| #[trigger]
                self@.dom().contains(id) && self@[id].is_open() ==> self@[id].send_window + delta
                    <= limit,
    {
        let mut i: usize = 0;
        while i < self.entries.len()
            invariant
                i <= self.entries@.len(),
                self.wf(),
                forall|id: int| #[trigger]
                    self@.dom().contains(id) ==> i64::MIN <= self@[id].send_window + delta
                        <= i64::MAX,
                forall|j: int|
                    0 <= j < i && (#[trigger] self.entries@[j]).is_open()
                        ==> self.entries@[j].send_window + delta <= limit,
            decreases self.entries@.len() - i,
        {
            let st = self.entries[i];
            proof {
                lemma_found(self.entries@, i as int);
            }
            if st.has_open_half() && st.send_window + delta > limit {
                return false;
            }
            i += 1;
        }
        proof {
            assert forall|id: int| #[trigger]
                self@.dom().contains(id) && self@[id].is_open() implies self@[id].send_window
                + delta <= limit by {
                let j = lemma_entry(self.entries@, id);
            }
        }
        true
    }

    /// Moves the windows of the open streams by `delta`.
    pub(crate) fn shift(&mut self, delta: i64)
        requires
            old(self).wf(),
            forall|id: int| #[trigger]
                old(self)@.dom().contains(id) ==> i64::MIN <= old(self)@[id].send_window + delta
                    <= i64::MAX,
        ensures
            final(self).wf(),
            final(self)@ == old(self)@.map_values(|st: StreamState| st.shifted(delta as int)),
    {
        let ghost before = self.entries@;
        let ghost change = |st: StreamState| st.shifted(delta as int);
        proof {
            assert forall|j: int| 0 <= j < before.len() implies i64::MIN <= (
            #[trigger] before[j]).send_window + delta <= i64::MAX by {
                lemma_found(before, j);
                assert(old(self)@.dom().contains(before[j].id.0 as int));
            }
        }
        let mut i: usize = 0;
        while i < self.entries.len()
            invariant
                i <= self.entries@.len(),
                self.entries@.len() == before.len(),
                change == |st: StreamState| st.shifted(delta as int),
                forall|j: int|
                    0 <= j < before.len() ==> i64::MIN <= (#[trigger] before[j]).send_window + delta
                        <= i64::MAX,
                forall|j: int| 0 <= j < i ==> #[trigger] self.entries@[j] == change(before[j]),
                forall|j: int|
                    i <= j < before.len() ==> #[trigger] self.entries@[j] == before[j],
            decreases self.entries@.len() - i,
        {
            let mut st = self.entries[i];
            assert(st == before[i as int]);
            if st.has_open_half() {
                st.send_window = st.send_window + delta;
                self.entries.set(i, st);
            }
            i += 1;
        }
        proof {
            lemma_each_changed(before, self.entries@, change);
        }
    }

    /// Collects the tasks that wait for capacity on a stream that has some, where the
    /// connection may send `window`.
    pub(crate) fn wake_capacity(&mut self, window: i64, woken: &mut Vec<WakerId>)
        requires
            old(self).wf(),
        ensures
            final(self).wf(),
            final(self)@ == old(self)@.map_values(
                |st: StreamState| st.told_of_capacity(window as int),
            ),
            final(woken)@.to_set() == old(woken)@.to_set().union(
                crate::model::tasks_with_capacity(old(self)@, window as int),
            ),
    {
        let ghost before = self.entries@;
        let ghost woken_before = woken@;
        let ghost change = |st: StreamState| st.told_of_capacity(window as int);
        let mut i: usize = 0;
        while i < self.entries.len()
            invariant
                i <= self.entries@.len(),
                self.entries@.len() == before.len(),
                change == |st: StreamState| st.told_of_capacity(window as int),
                forall|j: int| 0 <= j < i ==> #[trigger] self.entries@[j] == change(before[j]),
                forall|j: int|
                    i <= j < before.len() ==> #[trigger] self.entries@[j] == before[j],
                forall|w: WakerId| #[trigger]
                    woken@.contains(w) <==> woken_before.contains(w) || exists|j: int|
                        0 <= j < i && (#[trigger] before[j]).send_cap == Some(w)
                            && before[j].capacity(window as int) > 0,
            decreases self.entries@.len() - i,
        {
            let mut st = self.entries[i];
            let ghost woken_mid = woken@;
            assert(st == before[i as int]);
            if st.capacity_within(window) > 0 {
                if let Some(waker) = st.send_cap {
                    woken.push(waker);
                    proof {
                        lemma_push_contains(woken_mid, waker);
                    }
                }
                st.send_cap = None;
                self.entries.set(i, st);
            }
            i += 1;
        }
        proof {
            lemma_each_changed(before, self.entries@, change);
            assert forall|w: WakerId| #[trigger] woken@.contains(w) == (woken_before.contains(w)
                || crate::model::tasks_with_capacity(by_id(before), window as int).contains(w)) by {
                if crate::model::tasks_with_capacity(by_id(before), window as int).contains(w) {
                    let id = choose|id: int| #[trigger]
                        by_id(before).dom().contains(id) && by_id(before)[id].send_cap == Some(w)
                            && by_id(before)[id].capacity(window as int) > 0;
                    let j = lemma_entry(before, id);
                }
                if exists|j: int|
                    0 <= j < before.len() && (#[trigger] before[j]).send_cap == Some(w)
                        && before[j].capacity(window as int) > 0 {
                    let j = choose|j: int|
                        0 <= j < before.len() && (#[trigger] before[j]).send_cap == Some(w)
                            && before[j].capacity(window as int) > 0;
                    lemma_found(before, j);
                }
            }
            assert(woken@.to_set() =~= woken_before.to_set().union(
                crate::model::tasks_with_capacity(by_id(before), window as int),
            ));
        }
    }

    /// Cuts every open stream off, forgets those that nobody will ask for, and collects
    /// every task that waits on a stream.
    pub(crate) fn disconnect(&mut self, error: OperationError, woken: &mut Vec<WakerId>)
        requires
            old(self).wf(),
        ensures
            final(self).wf(),
            final(self)@ == Map::new(
                |id: int| old(self)@.dom().contains(id) && !old(self)@[id].released,
                |id: int| old(self)@[id].disconnected(error),
            ),
            final(woken)@.to_set() == old(woken)@.to_set().union(crate::model::all_tasks(old(self)@)),
    {
        let ghost before = self.entries@;
        let ghost woken_before = woken@;
        let ghost mut origin: Seq<int> = Seq::empty();
        let mut kept: Vec<StreamState> = Vec::new();
        let mut i: usize = 0;
        while i < self.entries.len()
            invariant
                i <= self.entries@.len(),
                self.entries@ == before,
                origin.len() == kept@.len(),
                forall|m: int|
                    0 <= m < kept@.len() ==> 0 <= #[trigger] origin[m] < i && !before[origin[m]].released
                        && kept@[m] == before[origin[m]].disconnected(error),
                forall|m: int, n: int|
                    0 <= m < n < origin.len() ==> #[trigger] origin[m] < #[trigger] origin[n],
                forall|j: int|
                    0 <= j < i && !(#[trigger] before[j]).released ==> exists|m: int|
                        0 <= m < origin.len() && #[trigger] origin[m] == j,
                forall|w: WakerId| #[trigger]
                    woken@.contains(w) <==> woken_before.contains(w) || exists|j: int|
                        0 <= j < i && ((#[trigger] before[j]).send_cap == Some(w)
                            || before[j].send_reset == Some(w)),
            decreases self.entries@.len() - i,
        {
            let mut st = self.entries[i];
            let ghost woken_mid = woken@;
            if let Some(waker) = st.send_cap {
                woken.push(waker);
                proof {
                    lemma_push_contains(woken_mid, waker);
                }
            }
            let ghost woken_mid = woken@;
            if let Some(waker) = st.send_reset {
                woken.push(waker);
                proof {
                    lemma_push_contains(woken_mid, waker);
                }
            }
            if !st.released {
                if st.has_open_half() {
                    st = st.cut(None, error);
                } else {
                    st.send_cap = None;
                }
                let ghost origin_mid = origin;
                kept.push(st);
                proof {
                    origin = origin.push(i as int);
                    assert forall|j: int| 0 <= j < i + 1 && !(
                    #[trigger] before[j]).released implies exists|m: int|
                        0 <= m < origin.len() && #[trigger] origin[m] == j by {
                        if j < i {
                            let m = choose|m: int|
                                0 <= m < origin_mid.len() && #[trigger] origin_mid[m] == j;
                            assert(origin[m] == j);
                        } else {
                            assert(origin[origin.len() - 1] == j);
                        }
                    }
                }
            }
            i += 1;
        }
        self.entries = kept;
        proof {
            let after = self.entries@;
            let expected = Map::new(
                |id: int| by_id(before).dom().contains(id) && !by_id(before)[id].released,
                |id: int| by_id(before)[id].disconnected(error),
            );
            assert forall|m: int, n: int| 0 <= m < n < after.len() implies (
            #[trigger] after[m]).id.0 != (#[trigger] after[n]).id.0 by {
                assert(origin[m] < origin[n]);
                assert(before[origin[m]].id.0 != before[origin[n]].id.0);
            }
            assert forall|id: int| #[trigger]
                by_id(after).dom().contains(id) == expected.dom().contains(id) by {
                if by_id(after).dom().contains(id) {
                    let m = lemma_entry(after, id);
                    assert(0 <= origin[m]);
                    lemma_found(before, origin[m]);
                } else if expected.dom().contains(id) {
                    let j = lemma_entry(before, id);
                    let m = choose|m: int| 0 <= m < origin.len() && #[trigger] origin[m] == j;
                    lemma_found(after, m);
                }
            }
            assert forall|id: int| #[trigger] by_id(after).dom().contains(id) implies by_id(
                after,
            )[id] == expected[id] by {
                let m = lemma_entry(after, id);
                assert(0 <= origin[m]);
                lemma_found(before, origin[m]);
            }
            assert(by_id(after) =~= expected);
            assert forall|w: WakerId| #[trigger] woken@.contains(w) == (woken_before.contains(w)
                || crate::model::all_tasks(by_id(before)).contains(w)) by {
                if crate::model::all_tasks(by_id(before)).contains(w) {
                    let id = choose|id: int| #[trigger]
                        by_id(before).dom().contains(id) && (by_id(before)[id].send_cap == Some(w)
                            || by_id(before)[id].send_reset == Some(w));
                    let j = lemma_entry(before, id);
                }
                if exists|j: int|
                    0 <= j < before.len() && ((#[trigger] before[j]).send_cap == Some(w)
                        || before[j].send_reset == Some(w)) {
                    let j = choose|j: int|
                        0 <= j < before.len() && ((#[trigger] before[j]).send_cap == Some(w)
                            || before[j].send_reset == Some(w));
                    lemma_found(before, j);
                }
            }
            assert(woken@.to_set() =~= woken_before.to_set().union(crate::model::all_tasks(by_id(before))));
        }
    }
}

/// What a sequence holds after a push.
pub(crate) proof fn lemma_push_contains<T>(s: Seq<T>, x: T)
    ensures
        forall|y: T| #[trigger] s.push(x).contains(y) <==> s.contains(y) || y == x,
{
    assert forall|y: T| #[trigger] s.push(x).contains(y) == (s.contains(y) || y == x) by {
        if s.contains(y) {
            let i = s.index_of(y);
            assert(s.push(x)[i] == y);
        }
        if y == x {
            assert(s.push(x)[s.len() as int] == y);
        }
    }
}

} // verus!
