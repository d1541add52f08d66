use gallery_backend::video::{dedup_hashes, settle_compression, ErrorReport, VideoJob, VideoStep};

fn s(v: &[&str]) -> Vec<String> {
    v.iter().map(|x| x.to_string()).collect()
}

#[test]
fn dedup_keeps_first_occurrences() {
    assert_eq!(dedup_hashes(s(&["a", "b", "a", "c", "b"])), s(&["a", "b", "c"]));
}

#[test]
fn dedup_of_unique_batch_is_unchanged() {
    assert_eq!(dedup_hashes(s(&["c", "a", "b"])), s(&["c", "a", "b"]));
    assert_eq!(dedup_hashes(vec![]), Vec::<String>::new());
}

#[test]
fn job_clone_is_equal() {
    assert_eq!(job().clone(), job());
}

#[test]
fn dedup_is_idempotent() {
    let once = dedup_hashes(s(&["x", "x", "y", "x"]));
    assert_eq!(dedup_hashes(once.clone()), once);
}

fn job() -> VideoJob {
    VideoJob {
        hash: "abc".to_string(),
        pending: true,
        imported_path: "./object/imported/ab/abc.mp4".to_string(),
    }
}

#[test]
fn success_clears_pending_and_asks_reset() {
    let step = settle_compression(job(), Ok(()));
    assert_eq!(
        step,
        VideoStep::Store {
            job: VideoJob {
                hash: "abc".to_string(),
                pending: false,
                imported_path: "./object/imported/ab/abc.mp4".to_string(),
            },
            reset: true,
        }
    );
}

#[test]
fn failure_is_reported_with_hash_and_path() {
    let step = settle_compression(job(), Err("ffmpeg failed".to_string()));
    assert_eq!(
        step,
        VideoStep::Report(ErrorReport {
            error: "ffmpeg failed".to_string(),
            message: "An error occurred while processing file".to_string(),
            hash: Some("abc".to_string()),
            path: Some("./object/imported/ab/abc.mp4".to_string()),
            record: Some(job()),
        })
    );
}
