use vstd::prelude::*;

verus! {

/// What the video queue reads and changes of a stored record: its hash,
/// whether its compressed form is still pending, and the path of the
/// imported file (for error reports).
#[derive(Debug, PartialEq, Eq)]
pub struct VideoJob {
    pub hash: String,
    pub pending: bool,
    pub imported_path: String,
}

impl Clone for VideoJob {
    fn clone(&self) -> (res: Self)
        ensures
            res == *self,
    {
        VideoJob {
            hash: self.hash.clone(),
            pending: self.pending,
            imported_path: self.imported_path.clone(),
        }
    }
}

/// An error report about one record, handed to the error handler.
#[derive(Debug, PartialEq, Eq)]
pub struct ErrorReport {
    pub error: String,
    pub message: String,
    pub hash: Option<String>,
    pub path: Option<String>,
    pub record: Option<VideoJob>,
}

/// What to do with a record once its compression has finished.
#[derive(Debug, PartialEq, Eq)]
pub enum VideoStep {
    /// Write the record back and ask the tree to be rebuilt.
    Store { job: VideoJob, reset: bool },
    /// Hand the report to the error handler; the record is not written.
    Report(ErrorReport),
}

/// The context line of the report made when compressing a video fails.
pub open spec fn failure_message() -> Seq<char> {
    "An error occurred while processing file"@
}

/// The views of a sequence of strings.
pub open spec fn views(v: Seq<String>) -> Seq<Seq<char>> {
    v.map_values(|s: String| s@)
}

/// No string occurs twice in `v`.
pub open spec fn no_duplicates(v: Seq<Seq<char>>) -> bool {
    forall|i: int, j: int| 0 <= i < j < v.len() ==> v[i] != v[j]
}

/// The strings of `s` in the order of their first occurrence, each once.
pub open spec fn unique_in_order(s: Seq<Seq<char>>) -> Seq<Seq<char>>
    decreases s.len(),
{
    if s.len() == 0 {
        Seq::empty()
    } else {
        let r = unique_in_order(s.drop_last());
        if r.contains(s.last()) {
            r
        } else {
            r.push(s.last())
        }
    }
}

/// Keeping first occurrences leaves no string twice, drops no string, and
/// leaves a sequence without repetitions as it is.
pub proof fn lemma_unique_in_order(s: Seq<Seq<char>>)
    ensures
        no_duplicates(unique_in_order(s)),
        forall|h: Seq<char>| unique_in_order(s).contains(h) <==> s.contains(h),
        no_duplicates(s) ==> unique_in_order(s) == s,
    decreases s.len(),
{
    broadcast use vstd::seq_lib::lemma_seq_contains_after_push;

    if s.len() > 0 {
        let init = s.drop_last();
        lemma_unique_in_order(init);
        assert(init.push(s.last()) =~= s);
        if no_duplicates(s) {
            assert(no_duplicates(init));
            if init.contains(s.last()) {
                let k = choose|k: int| 0 <= k < init.len() && init[k] == s.last();
                assert(s[k] == s[s.len() - 1]);
            }
        }
    }
}

/// Deduplicating twice keeps what deduplicating once keeps.
pub proof fn lemma_dedup_idempotent(s: Seq<Seq<char>>)
    ensures
        unique_in_order(unique_in_order(s)) == unique_in_order(s),
{
    lemma_unique_in_order(s);
    lemma_unique_in_order(unique_in_order(s));
}

/// Removes repeated hashes from a queued batch, keeping the first
/// occurrence of each: every hash of the batch stays, once.
pub fn dedup_hashes(list: Vec<String>) -> (unique: Vec<String>)
    ensures
        views(unique@) == unique_in_order(views(list@)),
        no_duplicates(views(unique@)),
        forall|h: Seq<char>| views(unique@).contains(h) <==> views(list@).contains(h),
        no_duplicates(views(list@)) ==> views(unique@) == views(list@),
{
    let mut unique: Vec<String> = Vec::new();
    let mut i: usize = 0;
    while i < list.len()
        invariant
            i <= list.len(),
            views(unique@) == unique_in_order(views(list@.take(i as int))),
        decreases list.len() - i,
    {
        let ghost before = unique@;
        let mut seen = false;
        let mut j: usize = 0;
        while j < unique.len()
            invariant
                j <= unique.len(),
                i < list.len(),
                seen <==> exists|k: int| 0 <= k < j && unique@[k]@ == list@[i as int]@,
            decreases unique.len() - j,
        {
            if unique[j] == list[i] {
                seen = true;
            }
            j = j + 1;
        }
        assert(views(list@.take(i + 1)).drop_last() =~= views(list@.take(i as int)));
        proof {
            if seen {
                let k = choose|k: int| 0 <= k < j && unique@[k]@ == list@[i as int]@;
                assert(views(unique@)[k] == list@[i as int]@);
            }
        }
        if !seen {
            unique.push(list[i].clone());
            assert(views(unique@) =~= views(before).push(list@[i as int]@));
        }
        i = i + 1;
    }
    assert(list@.take(i as int) =~= list@);
    proof {
        lemma_unique_in_order(views(list@));
    }
    unique
}

/// Decides what follows the compression of a record: on success the
/// record, no longer pending, is written back and the tree is asked to be
/// rebuilt; on failure the error is reported with the record's hash, its
/// path and the record itself, and nothing is written.
pub fn settle_compression(job: VideoJob, outcome: Result<(), String>) -> (step: VideoStep)
    ensures
        match outcome {
            Ok(()) => step == VideoStep::Store {
                job: VideoJob { pending: false, ..job },
                reset: true,
            },
            Err(e) => step matches VideoStep::Report(r) && r.error == e && r.message@
                == failure_message() && r.hash == Some(job.hash) && r.path == Some(
                job.imported_path,
            ) && r.record == Some(job),
        },
{
    match outcome {
        Ok(()) => {
            let mut job = job;
            job.pending = false;
            VideoStep::Store { job, reset: true }
        },
        Err(error) => {
            let message = String::from_str("An error occurred while processing file");
            proof {
                reveal_strlit("An error occurred while processing file");
            }
            VideoStep::Report(
                ErrorReport {
                    error,
                    message,
                    hash: Some(job.hash.clone()),
                    path: Some(job.imported_path.clone()),
                    record: Some(job),
                },
            )
        },
    }
}

} // verus!
