use herdr_freeze::state::{
    drain_freeze_now_requests, drain_thaw_requests, freeze_now_path, frozen_path,
    load_thaw_requests, push_freeze_now_request, push_thaw_request, state_dir, thaw_path,
    FrozenEntry,
};

#[test]
fn the_directory_is_named_or_below_the_root() {
    let named = state_dir(Some("/s".to_string()), Some("/r".to_string()));
    assert_eq!((named.base.as_str(), named.child), ("/s", None));
    let rooted = state_dir(None, Some("/r".to_string()));
    assert_eq!(rooted.base, "/r");
    assert_eq!(rooted.child, Some(".herdr-freeze-state".to_string()));
    assert_eq!(state_dir(None, None).base, ".");
}

#[test]
fn the_files_have_their_names() {
    assert_eq!(frozen_path(), "frozen.json");
    assert_eq!(thaw_path(), "thaw_requests.json");
    assert_eq!(freeze_now_path(), "freeze_now_requests.json");
}

#[test]
fn requests_are_kept_once() {
    let one = push_thaw_request(None, "t1");
    assert_eq!(one, "[\"t1\"]");
    let two = push_thaw_request(Some(&one), "t\"2");
    assert_eq!(push_thaw_request(Some(&two), "t1"), two);
    assert_eq!(load_thaw_requests(Some(&two)), vec!["t1", "t\"2"]);
}

#[test]
fn requests_are_drained() {
    let file = push_freeze_now_request(Some("[\"a\"]"), "b");
    let (tabs, emptied) = drain_freeze_now_requests(Some(&file));
    assert_eq!(tabs, vec!["a", "b"]);
    assert_eq!(emptied, "[]");
    let (none, _) = drain_freeze_now_requests(Some(&emptied));
    assert!(none.is_empty());
    let (thawed, left) = drain_thaw_requests(Some("[\"x\"]"));
    assert_eq!(thawed, vec!["x"]);
    assert_eq!(left, "[]");
}

#[test]
fn a_broken_file_holds_no_requests() {
    assert!(load_thaw_requests(Some("{")).is_empty());
    assert!(load_thaw_requests(None).is_empty());
    assert_eq!(push_thaw_request(Some("nonsense"), "t"), "[\"t\"]");
}

#[test]
fn an_entry_names_what_is_suspended() {
    let entry = FrozenEntry {
        workspace_id: "w".to_string(),
        tab_id: "t".to_string(),
        pane_id: "p".to_string(),
        roots: vec![1, 2],
        pgid: Some(3),
        orig_label: None,
    };
    let target = entry.clone().target();
    assert_eq!(target.roots, vec![1, 2]);
    assert_eq!(target.pgid, Some(3));
}
