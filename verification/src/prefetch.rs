use vstd::prelude::*;

verus! {

/// The summary of one gallery item kept in a snapshot: what the
/// front end needs to lay out a row without reading the full record.
#[derive(Debug, PartialEq, Eq)]
pub struct ReducedData {
    pub hash: String,
    pub width: u32,
    pub height: u32,
    pub date: u128,
}

impl Clone for ReducedData {
    fn clone(&self) -> (res: Self)
        ensures
            res == *self,
    {
        ReducedData {
            hash: self.hash.clone(),
            width: self.width,
            height: self.height,
            date: self.date,
        }
    }
}

/// The answer to a prefetch request: under which timestamp the snapshot
/// was stored, where the located item stands in it, and how long it is.
#[derive(Debug, PartialEq, Eq)]
pub struct Prefetch {
    pub timestamp: String,
    pub locate_to: Option<usize>,
    pub data_length: usize,
}

impl Clone for Prefetch {
    fn clone(&self) -> (res: Self)
        ensures
            res == *self,
    {
        Prefetch {
            timestamp: self.timestamp.clone(),
            locate_to: self.locate_to,
            data_length: self.data_length,
        }
    }
}

impl Prefetch {
    /// An answer with the given fields.
    pub fn new(timestamp: String, locate_to: Option<usize>, data_length: usize) -> (res: Self)
        ensures
            res.timestamp == timestamp,
            res.locate_to == locate_to,
            res.data_length == data_length,
    {
        Self { timestamp, locate_to, data_length }
    }
}

/// The hashes of a sequence of items, in order.
pub open spec fn hashes_of(s: Seq<ReducedData>) -> Seq<Seq<char>> {
    s.map_values(|r: ReducedData| r.hash@)
}

/// The items of `data` whose flag in `keep` is set, in their order.
pub open spec fn selected(data: Seq<ReducedData>, keep: Seq<bool>) -> Seq<ReducedData>
    decreases data.len(),
{
    if data.len() == 0 {
        Seq::empty()
    } else {
        let rest = selected(data.drop_last(), keep.take(data.len() - 1));
        if keep[data.len() - 1] {
            rest.push(data.last())
        } else {
            rest
        }
    }
}

/// `i` is the first position of `s` whose hash is `h`.
pub open spec fn is_first_match(s: Seq<ReducedData>, h: Seq<char>, i: int) -> bool {
    &&& 0 <= i < s.len()
    &&& s[i].hash@ == h
    &&& forall|j: int| 0 <= j < i ==> s[j].hash@ != h
}

/// What locating `h` in `s` gives: the first position that holds it, or
/// nothing where no item holds it.
pub open spec fn located(s: Seq<ReducedData>, h: Seq<char>) -> Option<usize> {
    if exists|i: int| 0 <= i < s.len() && s[i].hash@ == h {
        Some((choose|i: int| is_first_match(s, h, i)) as usize)
    } else {
        None
    }
}

proof fn lemma_first_match_unique(s: Seq<ReducedData>, h: Seq<char>, i: int, k: int)
    requires
        is_first_match(s, h, i),
        is_first_match(s, h, k),
    ensures
        i == k,
{
}

proof fn lemma_located_is_first(s: Seq<ReducedData>, h: Seq<char>, i: int)
    requires
        is_first_match(s, h, i),
        s.len() <= usize::MAX,
    ensures
        located(s, h) == Some(i as usize),
{
    assert(exists|i: int| 0 <= i < s.len() && s[i].hash@ == h);
    let k = choose|k: int| is_first_match(s, h, k);
    assert(is_first_match(s, h, k));
    lemma_first_match_unique(s, h, i, k);
}

/// Where some item holds `h`, a first such item exists.
pub(crate) proof fn lemma_some_first_match(s: Seq<ReducedData>, h: Seq<char>)
    requires
        exists|j: int| 0 <= j < s.len() && s[j].hash@ == h,
    ensures
        exists|j: int| is_first_match(s, h, j),
    decreases s.len(),
{
    let j = choose|j: int| 0 <= j < s.len() && s[j].hash@ == h;
    if exists|k: int| 0 <= k < j && s[k].hash@ == h {
        let t = s.take(j);
        assert(exists|k: int| 0 <= k < t.len() && t[k].hash@ == h) by {
            let k = choose|k: int| 0 <= k < j && s[k].hash@ == h;
            assert(t[k] == s[k]);
        }
        lemma_some_first_match(t, h);
        let m = choose|m: int| is_first_match(t, h, m);
        assert(is_first_match(t, h, m));
        assert forall|k: int| 0 <= k <= m implies t[k] == s[k] by {}
        assert(is_first_match(s, h, m));
    } else {
        assert(is_first_match(s, h, j));
    }
}

/// Keeps the items whose flag is set, in their order.
pub fn select_reduced(data: &Vec<ReducedData>, keep: &Vec<bool>) -> (out: Vec<ReducedData>)
    requires
        data.len() == keep.len(),
    ensures
        out@ == selected(data@, keep@),
{
    let mut out: Vec<ReducedData> = Vec::new();
    let mut i: usize = 0;
    while i < data.len()
        invariant
            data.len() == keep.len(),
            i <= data.len(),
            out@ == selected(data@.take(i as int), keep@.take(i as int)),
        decreases data.len() - i,
    {
        assert(data@.take(i + 1).drop_last() == data@.take(i as int));
        assert(keep@.take(i + 1).take(i as int) == keep@.take(i as int));
        if keep[i] {
            out.push(data[i].clone());
        }
        i = i + 1;
    }
    assert(data@.take(i as int) == data@);
    assert(keep@.take(i as int) == keep@);
    out
}

/// The position of the first item whose hash is `hash`, if any.
pub fn locate_hash(data: &Vec<ReducedData>, hash: &String) -> (res: Option<usize>)
    ensures
        res == located(data@, hash@),
        match res {
            Some(i) => is_first_match(data@, hash@, i as int),
            None => forall|j: int| 0 <= j < data@.len() ==> data@[j].hash@ != hash@,
        },
{
    let mut i: usize = 0;
    while i < data.len()
        invariant
            i <= data.len(),
            forall|j: int| 0 <= j < i ==> data@[j].hash@ != hash@,
        decreases data.len() - i,
    {
        if data[i].hash == *hash {
            proof {
                lemma_located_is_first(data@, hash@, i as int);
            }
            return Some(i);
        }
        i = i + 1;
    }
    None
}


/// The snapshot that a prefetch stores: every item, or only those that
/// the query kept.
pub open spec fn snapshot_of(data: Seq<ReducedData>, keep: Option<Seq<bool>>) -> Seq<ReducedData> {
    match keep {
        Some(k) => selected(data, k),
        None => data,
    }
}

/// Builds the snapshot of a prefetch request and the answer that
/// describes it. `keep` holds, for each item, whether the request's
/// query matched it (no query keeps every item); `locate` is the hash of
/// an item to find in the snapshot; `timestamp` is the key under which
/// the caller stores the snapshot.
pub fn prefetch(
    data: Vec<ReducedData>,
    keep: Option<Vec<bool>>,
    locate: Option<String>,
    timestamp: String,
) -> (res: (Prefetch, Vec<ReducedData>))
    requires
        keep matches Some(k) ==> k.len() == data.len(),
    ensures
        res.1@ == snapshot_of(
            data@,
            match keep {
                Some(k) => Some(k@),
                None => None,
            },
        ),
        res.0.timestamp == timestamp,
        res.0.data_length == res.1@.len(),
        res.0.locate_to == match locate {
            Some(h) => located(res.1@, h@),
            None => None,
        },
        keep is None ==> res.1@ == data@,
        keep matches Some(k) ==> exists|pos: Seq<int>| #[trigger] picks(data@, k@, res.1@, pos),
        locate is None ==> res.0.locate_to is None,
        locate matches Some(h) ==> match res.0.locate_to {
            Some(i) => is_first_match(res.1@, h@, i as int),
            None => forall|j: int| 0 <= j < res.1@.len() ==> res.1@[j].hash@ != h@,
        },
{
    proof {
        if keep is Some {
            lemma_prefetch_with_query(data@, keep->0@);
        }
        lemma_prefetch_without_query(data@);
    }
    let reduced = match keep {
        Some(k) => select_reduced(&data, &k),
        None => data,
    };
    let data_length = reduced.len();
    let locate_to = match locate {
        Some(h) => locate_hash(&reduced, &h),
        None => None,
    };
    (Prefetch::new(timestamp, locate_to, data_length), reduced)
}


/// A query that matches every item keeps the whole sequence.
pub proof fn lemma_select_all(data: Seq<ReducedData>, keep: Seq<bool>)
    requires
        data.len() == keep.len(),
        forall|i: int| 0 <= i < keep.len() ==> keep[i],
    ensures
        selected(data, keep) == data,
    decreases data.len(),
{
    if data.len() > 0 {
        lemma_select_all(data.drop_last(), keep.take(data.len() - 1));
        assert(data.drop_last().push(data.last()) =~= data);
    }
}

/// A query that matches no item keeps nothing.
pub proof fn lemma_select_none(data: Seq<ReducedData>, keep: Seq<bool>)
    requires
        data.len() == keep.len(),
        forall|i: int| 0 <= i < keep.len() ==> !keep[i],
    ensures
        selected(data, keep).len() == 0,
    decreases data.len(),
{
    if data.len() > 0 {
        lemma_select_none(data.drop_last(), keep.take(data.len() - 1));
    }
}

/// `pos` lists, in increasing order, the positions in `data` of the items
/// of `sel`: each a position whose flag is set, and every such position.
pub open spec fn picks(data: Seq<ReducedData>, keep: Seq<bool>, sel: Seq<ReducedData>, pos: Seq<int>) -> bool {
    &&& pos.len() == sel.len()
    &&& forall|k: int|
        0 <= k < pos.len() ==> 0 <= #[trigger] pos[k] < data.len() && keep[pos[k]] && sel[k]
            == data[pos[k]]
    &&& forall|k: int, l: int| 0 <= k < l < pos.len() ==> pos[k] < pos[l]
    &&& forall|i: int| 0 <= i < data.len() && keep[i] ==> pos.contains(i)
}

/// Every kept item is an item of the sequence whose flag is set, every
/// item whose flag is set is kept, the kept items keep their relative
/// order, and no more items are kept than there are.
pub proof fn lemma_selected_items(data: Seq<ReducedData>, keep: Seq<bool>)
    requires
        data.len() == keep.len(),
    ensures
        selected(data, keep).len() <= data.len(),
        exists|pos: Seq<int>| #[trigger] picks(data, keep, selected(data, keep), pos),
    decreases data.len(),
{
    if data.len() == 0 {
        assert(picks(data, keep, selected(data, keep), Seq::<int>::empty()));
    } else {
        let init = data.drop_last();
        let kinit = keep.take(data.len() - 1);
        lemma_selected_items(init, kinit);
        let pos = choose|pos: Seq<int>| #[trigger] picks(init, kinit, selected(init, kinit), pos);
        let sel = selected(data, keep);
        if keep[data.len() - 1] {
            let p2 = pos.push(data.len() - 1);
            assert forall|k: int| 0 <= k < p2.len() implies 0 <= #[trigger] p2[k] < data.len()
                && keep[p2[k]] && sel[k] == data[p2[k]] by {
                if k < pos.len() {
                    assert(p2[k] == pos[k]);
                    assert(kinit[pos[k]] == keep[pos[k]]);
                }
            }
            assert forall|k: int, l: int| 0 <= k < l < p2.len() implies p2[k] < p2[l] by {
                if l < pos.len() {
                    assert(p2[k] == pos[k]);
                    assert(p2[l] == pos[l]);
                } else {
                    assert(p2[k] == pos[k]);
                }
            }
            assert forall|i: int| 0 <= i < data.len() && keep[i] implies p2.contains(i) by {
                if i < data.len() - 1 {
                    assert(kinit[i] == keep[i]);
                    let k = choose|k: int| 0 <= k < pos.len() && pos[k] == i;
                    assert(p2[k] == i);
                } else {
                    assert(p2[pos.len() as int] == i);
                }
            }
            assert(picks(data, keep, sel, p2));
        } else {
            assert forall|k: int| 0 <= k < pos.len() implies 0 <= #[trigger] pos[k] < data.len()
                && keep[pos[k]] && sel[k] == data[pos[k]] by {
                assert(kinit[pos[k]] == keep[pos[k]]);
            }
            assert forall|i: int| 0 <= i < data.len() && keep[i] implies pos.contains(i) by {
                assert(kinit[i] == keep[i]);
            }
            assert(picks(data, keep, sel, pos));
        }
    }
}


/// Without a query the stored snapshot is every item, in order.
pub proof fn lemma_prefetch_without_query(data: Seq<ReducedData>)
    ensures
        snapshot_of(data, None) == data,
{
}

/// With a query the stored snapshot holds, in order, exactly the items
/// whose flag is set: each kept item is a flagged item, and every flagged
/// item is kept.
pub proof fn lemma_prefetch_with_query(data: Seq<ReducedData>, keep: Seq<bool>)
    requires
        data.len() == keep.len(),
    ensures
        exists|pos: Seq<int>| #[trigger] picks(data, keep, snapshot_of(data, Some(keep)), pos),
{
    lemma_selected_items(data, keep);
    let pos = choose|pos: Seq<int>| #[trigger] picks(data, keep, selected(data, keep), pos);
    assert(snapshot_of(data, Some(keep)) == selected(data, keep));
    assert(picks(data, keep, snapshot_of(data, Some(keep)), pos));
}

} // verus!
