use gallery_backend::watcher::{decide_watch_event, WatchAction, WatchEventKind};

#[test]
fn creation_sends_every_path() {
    assert_eq!(
        decide_watch_event(WatchEventKind::Create, 3, &vec![false, true, false]),
        WatchAction::Send(vec![0, 1, 2])
    );
}

#[test]
fn creation_without_paths_is_ignored() {
    assert_eq!(decide_watch_event(WatchEventKind::Create, 0, &vec![]), WatchAction::Ignore);
}

#[test]
fn modification_sends_only_files() {
    assert_eq!(
        decide_watch_event(WatchEventKind::Modify, 4, &vec![false, true, false, true]),
        WatchAction::Send(vec![1, 3])
    );
}

#[test]
fn modification_of_folders_only_is_ignored() {
    assert_eq!(
        decide_watch_event(WatchEventKind::Modify, 2, &vec![false, false]),
        WatchAction::Ignore
    );
}

#[test]
fn other_events_are_ignored() {
    assert_eq!(decide_watch_event(WatchEventKind::Other, 2, &vec![true, true]), WatchAction::Ignore);
}
