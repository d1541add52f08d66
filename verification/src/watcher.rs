use vstd::prelude::*;

verus! {

/// The kinds of file-system event that the watcher tells apart.
#[derive(Debug, Clone, Copy, PartialEq, Eq)]
pub enum WatchEventKind {
    Create,
    Modify,
    Other,
}

/// What the watcher does with one event: send the paths at the given
/// positions of the event (in this order) to the synchronizer, or nothing.
#[derive(Debug, PartialEq, Eq)]
pub enum WatchAction {
    Send(Vec<usize>),
    Ignore,
}

/// The positions `0..n`.
pub open spec fn all_positions(n: nat) -> Seq<usize> {
    Seq::new(n, |i: int| i as usize)
}

/// The positions whose flag is set, in increasing order.
pub open spec fn flagged_positions(flags: Seq<bool>) -> Seq<usize>
    decreases flags.len(),
{
    if flags.len() == 0 {
        Seq::empty()
    } else {
        let rest = flagged_positions(flags.drop_last());
        if flags.last() {
            rest.push((flags.len() - 1) as usize)
        } else {
            rest
        }
    }
}

/// What an event of `kind` on `n` paths, of which those flagged in
/// `is_file` are plain files, should cause.
pub open spec fn watch_decision(kind: WatchEventKind, n: nat, is_file: Seq<bool>) -> Option<
    Seq<usize>,
> {
    match kind {
        WatchEventKind::Create => if n > 0 {
            Some(all_positions(n))
        } else {
            None
        },
        WatchEventKind::Modify => {
            let files = flagged_positions(is_file);
            if files.len() > 0 {
                Some(files)
            } else {
                None
            }
        },
        WatchEventKind::Other => None,
    }
}

/// Decides what to do with an event on `path_count` paths: a creation
/// sends every path; a modification sends only the paths that are plain
/// files (so that touching a folder does not rescan it); any other event,
/// and an event with nothing left to send, is ignored.
pub fn decide_watch_event(kind: WatchEventKind, path_count: usize, is_file: &Vec<bool>) -> (action:
    WatchAction)
    requires
        is_file.len() == path_count,
    ensures
        match watch_decision(kind, path_count as nat, is_file@) {
            Some(p) => action matches WatchAction::Send(v) && v@ == p,
            None => action is Ignore,
        },
        kind is Create ==> (action is Send <==> path_count > 0),
        kind is Create ==> (action matches WatchAction::Send(v) ==> v@.len() == path_count
            && forall|i: int| 0 <= i < v@.len() ==> v@[i] == i),
        kind is Modify ==> (action is Send <==> exists|i: int|
            0 <= i < path_count && is_file@[i]),
        kind is Modify ==> (action matches WatchAction::Send(v) ==> forall|i: int|
            0 <= i < path_count ==> (is_file@[i] <==> v@.contains(i as usize))),
        action matches WatchAction::Send(v) ==> forall|k: int|
            0 <= k < v@.len() ==> v@[k] < path_count,
        kind is Other ==> action is Ignore,
{
    proof {
        lemma_creation_sends_every_path(path_count as nat, is_file@);
        lemma_modification_sends_exactly_files(path_count as nat, is_file@);
        lemma_other_events_ignored(path_count as nat, is_file@);
    }
    match kind {
        WatchEventKind::Create => {
            if path_count > 0 {
                let mut all: Vec<usize> = Vec::new();
                let mut i: usize = 0;
                while i < path_count
                    invariant
                        i <= path_count,
                        all@ == all_positions(i as nat),
                    decreases path_count - i,
                {
                    all.push(i);
                    assert(all@ =~= all_positions((i + 1) as nat));
                    i = i + 1;
                }
                WatchAction::Send(all)
            } else {
                WatchAction::Ignore
            }
        },
        WatchEventKind::Modify => {
            let mut files: Vec<usize> = Vec::new();
            let mut i: usize = 0;
            while i < is_file.len()
                invariant
                    i <= is_file.len(),
                    files@ == flagged_positions(is_file@.take(i as int)),
                decreases is_file.len() - i,
            {
                assert(is_file@.take(i + 1).drop_last() == is_file@.take(i as int));
                if is_file[i] {
                    files.push(i);
                }
                i = i + 1;
            }
            assert(is_file@.take(i as int) == is_file@);
            if files.len() > 0 {
                WatchAction::Send(files)
            } else {
                WatchAction::Ignore
            }
        },
        WatchEventKind::Other => WatchAction::Ignore,
    }
}


/// The flagged positions are exactly the positions whose flag is set,
/// each inside the sequence, in strictly increasing order.
pub proof fn lemma_flagged_positions(flags: Seq<bool>)
    requires
        flags.len() <= usize::MAX,
    ensures
        forall|k: int|
            0 <= k < flagged_positions(flags).len() ==> {
                &&& flagged_positions(flags)[k] < flags.len()
                &&& flags[flagged_positions(flags)[k] as int]
            },
        forall|k: int, l: int|
            0 <= k < l < flagged_positions(flags).len() ==> flagged_positions(flags)[k]
                < flagged_positions(flags)[l],
        forall|i: int|
            0 <= i < flags.len() && flags[i] ==> flagged_positions(flags).contains(i as usize),
    decreases flags.len(),
{
    if flags.len() > 0 {
        let init = flags.drop_last();
        lemma_flagged_positions(init);
        let rest = flagged_positions(init);
        assert forall|i: int| 0 <= i < flags.len() && flags[i] implies flagged_positions(
            flags,
        ).contains(i as usize) by {
            if i < flags.len() - 1 {
                assert(init[i] == flags[i]);
                let k = choose|k: int| 0 <= k < rest.len() && rest[k] == i as usize;
                assert(flagged_positions(flags)[k] == i as usize);
            } else {
                assert(flagged_positions(flags)[rest.len() as int] == i as usize);
            }
        }
    }
}

/// Every batch that the watcher sends is non-empty, names only positions of
/// the event's paths, each once and in order, and, for a modification,
/// only paths that are plain files.
pub proof fn lemma_sent_batches(kind: WatchEventKind, n: nat, is_file: Seq<bool>)
    requires
        is_file.len() == n,
        n <= usize::MAX,
        watch_decision(kind, n, is_file) is Some,
    ensures
        ({
            let p = watch_decision(kind, n, is_file)->0;
            &&& p.len() > 0
            &&& forall|k: int| 0 <= k < p.len() ==> p[k] < n
            &&& forall|k: int, l: int| 0 <= k < l < p.len() ==> p[k] < p[l]
            &&& kind is Modify ==> forall|k: int| 0 <= k < p.len() ==> is_file[p[k] as int]
        }),
{
    lemma_flagged_positions(is_file);
}


/// A creation is ignored exactly when it has no paths; otherwise every
/// path is sent, each once, in the event's order.
pub proof fn lemma_creation_sends_every_path(n: nat, is_file: Seq<bool>)
    requires
        n <= usize::MAX,
    ensures
        n == 0 ==> watch_decision(WatchEventKind::Create, n, is_file) is None,
        n > 0 ==> watch_decision(WatchEventKind::Create, n, is_file) is Some,
        watch_decision(WatchEventKind::Create, n, is_file) matches Some(p) ==> p.len() == n
            && forall|i: int| 0 <= i < n ==> p[i] == i,
{
}

/// A modification is ignored exactly when none of its paths is a plain
/// file; otherwise the positions sent are exactly those of the plain
/// files.
pub proof fn lemma_modification_sends_exactly_files(n: nat, is_file: Seq<bool>)
    requires
        is_file.len() == n,
        n <= usize::MAX,
    ensures
        watch_decision(WatchEventKind::Modify, n, is_file) is Some <==> exists|i: int|
            0 <= i < n && is_file[i],
        watch_decision(WatchEventKind::Modify, n, is_file) matches Some(p) ==> forall|i: int|
            0 <= i < n ==> (is_file[i] <==> p.contains(i as usize)),
        watch_decision(WatchEventKind::Modify, n, is_file) matches Some(p) ==> forall|k: int|
            0 <= k < p.len() ==> p[k] < n,
{
    lemma_flagged_positions(is_file);
    let p = flagged_positions(is_file);
    if exists|i: int| 0 <= i < n && is_file[i] {
        let i = choose|i: int| 0 <= i < n && is_file[i];
        assert(p.contains(i as usize));
    }
    if p.len() > 0 {
        assert(is_file[p[0] as int]);
    }
    assert forall|i: int| 0 <= i < n && p.contains(i as usize) implies is_file[i] by {
        let k = choose|k: int| 0 <= k < p.len() && p[k] == i as usize;
        assert(is_file[p[k] as int]);
    }
}

/// Every event that is neither a creation nor a modification is ignored,
/// whatever its paths.
pub proof fn lemma_other_events_ignored(n: nat, is_file: Seq<bool>)
    ensures
        watch_decision(WatchEventKind::Other, n, is_file) is None,
{
}

} // verus!
