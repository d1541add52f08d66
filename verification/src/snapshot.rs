use vstd::prelude::*;

use crate::prefetch::{hashes_of, is_first_match, lemma_some_first_match, located, ReducedData};

verus! {

/// The views of a sequence of strings.
pub open spec fn string_views(v: Seq<String>) -> Seq<Seq<char>> {
    v.map_values(|s: String| s@)
}

/// Where a read of `[start, end)` stops in a snapshot of `len` items:
/// `end`, or the snapshot's end where `end` lies beyond it.
pub open spec fn clipped_end(len: int, end: int) -> int {
    if end < len {
        end
    } else {
        len
    }
}

/// The hashes that a read of `[start, end)` returns from a snapshot: the
/// part of the range that lies inside it, or nothing where that part is
/// empty.
pub open spec fn window(s: Seq<ReducedData>, start: int, end: int) -> Seq<Seq<char>> {
    let e = clipped_end(s.len() as int, end);
    if start < e {
        hashes_of(s).subrange(start, e)
    } else {
        Seq::empty()
    }
}

/// The hashes of the snapshot items in `[start, end)`, the range cut at
/// the snapshot's end; nothing where the range starts at or after its end.
pub fn get_data(snapshot: &Vec<ReducedData>, start: usize, end: usize) -> (hashes: Vec<String>)
    ensures
        string_views(hashes@) == window(snapshot@, start as int, end as int),
        hashes@.len() == if start < end && start < snapshot@.len() {
            (if end < snapshot@.len() {
                end
            } else {
                snapshot@.len() as usize
            }) - start
        } else {
            0
        },
        forall|k: int| 0 <= k < hashes@.len() ==> hashes@[k]@ == snapshot@[start + k].hash@,
{
    proof {
        lemma_read_shape(snapshot@, start as int, end as int);
    }
    let end = if end < snapshot.len() {
        end
    } else {
        snapshot.len()
    };
    let mut hashes: Vec<String> = Vec::new();
    if start < end {
        let mut i: usize = start;
        while i < end
            invariant
                start <= i <= end,
                end <= snapshot.len(),
                string_views(hashes@) == hashes_of(snapshot@).subrange(start as int, i as int),
            decreases end - i,
        {
            hashes.push(snapshot[i].hash.clone());
            assert(hashes_of(snapshot@).subrange(start as int, i + 1) == hashes_of(
                snapshot@,
            ).subrange(start as int, i as int).push(snapshot@[i as int].hash@));
            i = i + 1;
        }
    }
    assert(string_views(hashes@) == window(snapshot@, start as int, end as int));
    assert forall|k: int| 0 <= k < hashes@.len() implies hashes@[k]@ == snapshot@[start
        + k].hash@ by {
        assert(string_views(hashes@)[k] == hashes@[k]@);
    }
    hashes
}

/// Reads of adjacent ranges, one after the other, return together what one
/// read of their union returns: pages tile the snapshot.
pub proof fn lemma_pages_tile(s: Seq<ReducedData>, a: int, b: int, c: int)
    requires
        0 <= a <= b <= c,
    ensures
        window(s, a, b) + window(s, b, c) == window(s, a, c),
{
    let h = hashes_of(s);
    let eb = clipped_end(s.len() as int, b);
    let ec = clipped_end(s.len() as int, c);
    if a < eb {
        if b < ec {
            assert(h.subrange(a, eb) + h.subrange(b, ec) =~= h.subrange(a, ec));
        } else {
            assert(window(s, b, c) =~= Seq::empty());
            assert(eb == ec);
            assert(window(s, a, b) + Seq::empty() =~= window(s, a, b));
        }
    } else {
        assert(window(s, a, b) =~= Seq::empty());
        assert(window(s, b, c) =~= window(s, a, c));
        assert(Seq::empty() + window(s, b, c) =~= window(s, b, c));
    }
}

/// A read of the whole snapshot returns the hashes of all its items, in
/// order.
pub proof fn lemma_whole_read(s: Seq<ReducedData>)
    ensures
        window(s, 0, s.len() as int) == hashes_of(s),
{
    if s.len() == 0 {
        assert(hashes_of(s) =~= Seq::empty());
    } else {
        assert(hashes_of(s).subrange(0, s.len() as int) =~= hashes_of(s));
    }
}

/// A read that runs past the snapshot's end returns what a read up to its
/// end returns.
pub proof fn lemma_read_clipped(s: Seq<ReducedData>, start: int, end: int)
    requires
        end >= s.len(),
    ensures
        window(s, start, end) == window(s, start, s.len() as int),
{
}

/// A read returns one hash for each position of the range inside the
/// snapshot, the hash of the item at that position.
pub proof fn lemma_read_items(s: Seq<ReducedData>, start: int, end: int, k: int)
    requires
        0 <= start,
        0 <= k < window(s, start, end).len(),
    ensures
        window(s, start, end).len() == clipped_end(s.len() as int, end) - start,
        window(s, start, end)[k] == s[start + k].hash@,
{
}

/// The position that a prefetch reports for a located hash is where a
/// read of one item finds that hash.
pub proof fn lemma_located_read(s: Seq<ReducedData>, h: Seq<char>)
    requires
        s.len() <= usize::MAX,
        located(s, h) is Some,
    ensures
        window(s, located(s, h)->0 as int, located(s, h)->0 + 1) == seq![h],
{
    let i = choose|i: int| is_first_match(s, h, i);
    assert(exists|j: int| 0 <= j < s.len() && s[j].hash@ == h);
    assert(exists|j: int| is_first_match(s, h, j)) by {
        lemma_some_first_match(s, h);
    }
    assert(is_first_match(s, h, i));
    assert(window(s, i, i + 1) =~= seq![h]);
}

/// A read returns as many hashes as the range has positions inside the
/// snapshot (none where it starts at or after the snapshot's end or is
/// empty), the hash at each of those positions in turn.
pub proof fn lemma_read_shape(s: Seq<ReducedData>, start: int, end: int)
    requires
        0 <= start,
    ensures
        window(s, start, end).len() == if start < end && start < s.len() {
            (if end < s.len() {
                end
            } else {
                s.len() as int
            }) - start
        } else {
            0
        },
        forall|k: int|
            0 <= k < window(s, start, end).len() ==> window(s, start, end)[k] == s[start
                + k].hash@,
{
}

/// The snapshots kept in memory, each under the timestamp of the
/// prefetch that built it.
pub struct SnapshotStore {
    entries: Vec<(String, Vec<ReducedData>)>,
}

impl SnapshotStore {
    /// No timestamp is held twice.
    #[verifier::type_invariant]
    spec fn keys_unique(self) -> bool {
        forall|i: int, j: int|
            0 <= i < j < self.entries@.len() ==> self.entries@[i].0@ != self.entries@[j].0@
    }

    spec fn holds_at(self, k: Seq<char>, i: int) -> bool {
        0 <= i < self.entries@.len() && self.entries@[i].0@ == k
    }

    /// The timestamps held and the snapshot under each.
    pub closed spec fn snapshots(self) -> Map<Seq<char>, Seq<ReducedData>> {
        Map::new(
            |k: Seq<char>| exists|i: int| self.holds_at(k, i),
            |k: Seq<char>| self.entries@[choose|i: int| self.holds_at(k, i)].1@,
        )
    }

    proof fn lemma_at(self, k: Seq<char>, i: int)
        requires
            self.keys_unique(),
            self.holds_at(k, i),
        ensures
            self.snapshots().dom().contains(k),
            self.snapshots()[k] == self.entries@[i].1@,
    {
        let c = choose|c: int| self.holds_at(k, c);
        assert(self.holds_at(k, c));
        assert(c == i);
    }

    /// A store that differs from `before` only at position `idx`, which holds
    /// `(k, v)` and either held `k` before or is a new last position, holds
    /// `v` under `k` and what `before` held under every other timestamp.
    proof fn lemma_put(
        before: SnapshotStore,
        after: SnapshotStore,
        k: Seq<char>,
        v: Seq<ReducedData>,
        idx: int,
    )
        requires
            before.keys_unique(),
            after.keys_unique(),
            0 <= idx < after.entries@.len(),
            after.entries@[idx].0@ == k,
            after.entries@[idx].1@ == v,
            after.entries@.len() == before.entries@.len() ==> before.entries@[idx].0@ == k,
            after.entries@.len() == before.entries@.len() || (after.entries@.len()
                == before.entries@.len() + 1 && idx == before.entries@.len()),
            forall|j: int|
                0 <= j < before.entries@.len() && j != idx ==> after.entries@[j]
                    == before.entries@[j],
        ensures
            after.snapshots() == before.snapshots().insert(k, v),
    {
        assert forall|key: Seq<char>|
            after.snapshots().dom().contains(key) <==> before.snapshots().insert(
                k,
                v,
            ).dom().contains(key) by {
            if exists|j: int| before.holds_at(key, j) {
                let j = choose|j: int| before.holds_at(key, j);
                if j != idx {
                    assert(after.holds_at(key, j));
                } else {
                    assert(after.holds_at(key, idx));
                }
            }
            if exists|j: int| after.holds_at(key, j) {
                let j = choose|j: int| after.holds_at(key, j);
                if j != idx {
                    assert(before.holds_at(key, j));
                }
            }
            if key == k {
                assert(after.holds_at(key, idx));
            }
        }
        assert forall|key: Seq<char>| #[trigger]
            after.snapshots().dom().contains(key) implies after.snapshots()[key]
            == before.snapshots().insert(k, v)[key] by {
            let j = choose|j: int| after.holds_at(key, j);
            after.lemma_at(key, j);
            if j != idx {
                before.lemma_at(key, j);
            }
        }
        assert(after.snapshots() =~= before.snapshots().insert(k, v));
    }

    /// An empty store.
    pub fn new() -> (store: Self)
        ensures
            store.snapshots() == Map::<Seq<char>, Seq<ReducedData>>::empty(),
    {
        let store = SnapshotStore { entries: Vec::new() };
        assert(store.snapshots() =~= Map::<Seq<char>, Seq<ReducedData>>::empty());
        store
    }

    /// Stores `snapshot` under `timestamp`, in place of any snapshot held
    /// there before; every other timestamp keeps its snapshot.
    pub fn insert(&mut self, timestamp: String, snapshot: Vec<ReducedData>)
        ensures
            final(self).snapshots() == old(self).snapshots().insert(timestamp@, snapshot@),
    {
        proof {
            use_type_invariant(&*self);
        }
        let ghost before = *self;
        let mut i: usize = 0;
        while i < self.entries.len()
            invariant
                *self == before,
                before == *old(self),
                before.keys_unique(),
                i <= self.entries.len(),
                forall|j: int| 0 <= j < i ==> self.entries@[j].0@ != timestamp@,
            decreases self.entries.len() - i,
        {
            if self.entries[i].0 == timestamp {
                let ghost k = timestamp@;
                let mut entries: Vec<(String, Vec<ReducedData>)> = Vec::new();
                std::mem::swap(&mut entries, &mut self.entries);
                entries.set(i, (timestamp, snapshot));
                self.entries = entries;
                proof {
                    use_type_invariant(&*self);
                    SnapshotStore::lemma_put(before, *self, k, snapshot@, i as int);
                }
                return ;
            }
            i = i + 1;
        }
        let ghost k = timestamp@;
        let ghost n: int = self.entries@.len() as int;
        let mut entries: Vec<(String, Vec<ReducedData>)> = Vec::new();
        std::mem::swap(&mut entries, &mut self.entries);
        entries.push((timestamp, snapshot));
        self.entries = entries;
        proof {
            use_type_invariant(&*self);
            SnapshotStore::lemma_put(before, *self, k, snapshot@, n);
        }
    }

    /// The snapshot stored under `timestamp`, if one is.
    pub fn read(&self, timestamp: &String) -> (res: Option<&Vec<ReducedData>>)
        ensures
            match res {
                Some(v) => self.snapshots().dom().contains(timestamp@) && v@
                    == self.snapshots()[timestamp@],
                None => !self.snapshots().dom().contains(timestamp@),
            },
    {
        proof {
            use_type_invariant(self);
        }
        let mut i: usize = 0;
        while i < self.entries.len()
            invariant
                self.keys_unique(),
                i <= self.entries.len(),
                forall|j: int| 0 <= j < i ==> self.entries@[j].0@ != timestamp@,
            decreases self.entries.len() - i,
        {
            if self.entries[i].0 == *timestamp {
                proof {
                    self.lemma_at(timestamp@, i as int);
                }
                return Some(&self.entries[i].1);
            }
            i = i + 1;
        }
        None
    }
}


/// After a snapshot is stored under a timestamp, a read under that
/// timestamp finds it, and a read under any other timestamp finds what it
/// found before.
pub proof fn lemma_store_then_read(
    before: SnapshotStore,
    after: SnapshotStore,
    timestamp: Seq<char>,
    snapshot: Seq<ReducedData>,
    other: Seq<char>,
)
    requires
        after.snapshots() == before.snapshots().insert(timestamp, snapshot),
    ensures
        after.snapshots().dom().contains(timestamp),
        after.snapshots()[timestamp] == snapshot,
        other != timestamp ==> (after.snapshots().dom().contains(other)
            <==> before.snapshots().dom().contains(other)),
        other != timestamp && before.snapshots().dom().contains(other) ==> after.snapshots()[other]
            == before.snapshots()[other],
{
}

} // verus!
