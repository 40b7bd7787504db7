use chorus_core::clock::{parse_rfc3339_secs, Timestamp};
use chorus_core::hub::{
    BroadcastRequest, FileActivity, FileActivityRequest, IntelHub, PathActivity,
    ScratchpadWriteRequest,
};

fn broadcast_req(session_id: u32, category: &str, message: &str) -> BroadcastRequest {
    BroadcastRequest {
        session_id,
        instance_id: "inst".to_string(),
        category: category.to_string(),
        message: message.to_string(),
        metadata: None,
    }
}

fn activity_req(session_id: u32, file_path: &str, action: &str) -> FileActivityRequest {
    FileActivityRequest {
        session_id,
        instance_id: "inst".to_string(),
        file_path: file_path.to_string(),
        action: action.to_string(),
    }
}

fn pad_req(session_id: u32, category: &str, title: &str, content: &str) -> ScratchpadWriteRequest {
    ScratchpadWriteRequest {
        session_id,
        instance_id: "inst".to_string(),
        category: category.to_string(),
        title: title.to_string(),
        content: content.to_string(),
    }
}

#[test]
fn ring_buffer_keeps_200_most_recent() {
    let mut hub = IntelHub::new();
    for i in 0..250 {
        let req = broadcast_req(1, "info", &format!("msg{}", i));
        hub.add_broadcast(req).expect("valid broadcast");
    }
    let all = hub.get_all_messages();
    assert_eq!(all.len(), 200);
    assert_eq!(all[0].message, "msg50");
    assert_eq!(all[199].message, "msg249");
    for m in &all {
        let n: u32 = m.message.trim_start_matches("msg").parse().unwrap();
        assert!(n >= 50, "none of the first 50 may be retained");
    }
}

#[test]
fn echo_suppression_filters_own_messages() {
    let mut hub = IntelHub::new();
    hub.add_broadcast(broadcast_req(1, "info", "from one")).unwrap();
    hub.add_broadcast(broadcast_req(2, "warning", "from two")).unwrap();
    hub.add_broadcast(broadcast_req(1, "discovery", "one again")).unwrap();
    let for_one = hub.get_messages_for(1);
    assert_eq!(for_one.len(), 1);
    assert_eq!(for_one[0].message, "from two");
    let for_three = hub.get_messages_for(3);
    assert_eq!(for_three.len(), 3);
    for m in hub.get_messages_for(2) {
        assert!(m.session_id != 2);
    }
}

#[test]
fn broadcast_message_is_stamped() {
    let mut hub = IntelHub::new();
    let msg = hub
        .add_broadcast(broadcast_req(7, "knowledge", "lesson"))
        .unwrap();
    assert_eq!(msg.id.len(), 36);
    assert_eq!(msg.session_id, 7);
    assert_eq!(msg.category, "knowledge");
    assert!(parse_rfc3339_secs(&msg.timestamp).is_some());
}

#[test]
fn broadcast_category_rejected() {
    let mut hub = IntelHub::new();
    let err = hub
        .add_broadcast(broadcast_req(1, "bogus", "hello"))
        .unwrap_err();
    assert_eq!(err.field, "category");
    assert!(hub.get_all_messages().is_empty());
}

#[test]
fn broadcast_length_rejected() {
    let mut hub = IntelHub::new();
    let long = "x".repeat(10001);
    let err = hub.add_broadcast(broadcast_req(1, "info", &long)).unwrap_err();
    assert_eq!(err.field, "message");
    let exactly = "x".repeat(10000);
    assert!(hub.add_broadcast(broadcast_req(1, "info", &exactly)).is_ok());
}

#[test]
fn conflict_basic_two_sessions_same_file() {
    let mut hub = IntelHub::new();
    let first = hub
        .report_file(activity_req(1, "/a.ts", "editing"))
        .unwrap();
    assert!(first.is_empty());
    let second = hub
        .report_file(activity_req(2, "/a.ts", "editing"))
        .unwrap();
    assert_eq!(second.len(), 1);
    assert_eq!(second[0].file_path, "/a.ts");
    assert_eq!(second[0].sessions, vec![1, 2]);
    assert_eq!(second[0].actions.len(), 2);
}

#[test]
fn conflict_dedup_single_session_never_conflicts() {
    let mut hub = IntelHub::new();
    for _ in 0..3 {
        let conflicts = hub
            .report_file(activity_req(1, "/a.ts", "editing"))
            .unwrap();
        assert!(conflicts.is_empty(), "a session never conflicts with itself");
    }
    assert!(hub.get_all_conflicts().is_empty());
}

#[test]
fn conflict_collapses_repeat_edits_to_one_record() {
    let mut hub = IntelHub::new();
    hub.report_file(activity_req(1, "/a.ts", "editing")).unwrap();
    hub.report_file(activity_req(1, "/a.ts", "created")).unwrap();
    hub.report_file(activity_req(2, "/a.ts", "editing")).unwrap();
    let conflicts = hub
        .report_file(activity_req(2, "/a.ts", "deleted"))
        .unwrap();
    assert_eq!(conflicts.len(), 1);
    assert_eq!(conflicts[0].sessions, vec![1, 2]);
}

#[test]
fn separate_files_do_not_conflict() {
    let mut hub = IntelHub::new();
    hub.report_file(activity_req(1, "/a.ts", "editing")).unwrap();
    let conflicts = hub
        .report_file(activity_req(2, "/b.ts", "editing"))
        .unwrap();
    assert!(conflicts.is_empty());
    assert!(hub.get_all_conflicts().is_empty());
}

const OLD_TS: &str = "2020-01-01T00:00:00+00:00";
const OLD_SECS: i64 = 1577836800;

fn stamped_activity(session_id: u32, file_path: &str, timestamp: &str) -> FileActivity {
    FileActivity {
        session_id,
        file_path: file_path.to_string(),
        action: "editing".to_string(),
        timestamp: timestamp.to_string(),
    }
}

#[test]
fn ttl_expiry_excludes_old_activity() {
    let hub = IntelHub {
        messages: Vec::new(),
        file_activities: vec![PathActivity {
            path: "/a.ts".to_string(),
            entries: vec![
                stamped_activity(1, "/a.ts", OLD_TS),
                stamped_activity(2, "/a.ts", "2020-01-01T00:04:00+00:00"),
            ],
        }],
        scratchpad: Vec::new(),
    };
    // Within the TTL of both records: both sessions count, one conflict.
    let within = hub.get_all_conflicts_at(OLD_SECS + 250);
    assert_eq!(within.len(), 1);
    assert_eq!(within[0].sessions, vec![1, 2]);
    // The first record is now 300 seconds old: it is excluded, and one
    // session alone is no conflict.
    let later = hub.get_all_conflicts_at(OLD_SECS + 300);
    assert!(later.is_empty());
}

#[test]
fn unparseable_timestamp_is_kept() {
    let hub = IntelHub {
        messages: Vec::new(),
        file_activities: vec![PathActivity {
            path: "/a.ts".to_string(),
            entries: vec![
                stamped_activity(1, "/a.ts", "not a timestamp"),
                stamped_activity(2, "/a.ts", "2020-01-01T00:04:00+00:00"),
            ],
        }],
        scratchpad: Vec::new(),
    };
    let conflicts = hub.get_all_conflicts_at(OLD_SECS + 250);
    assert_eq!(conflicts.len(), 1, "a record with a bad timestamp is never dropped");
    assert_eq!(conflicts[0].sessions, vec![1, 2]);
}

#[test]
fn report_prunes_stale_records() {
    let mut hub = IntelHub {
        messages: Vec::new(),
        file_activities: vec![PathActivity {
            path: "/a.ts".to_string(),
            entries: vec![stamped_activity(1, "/a.ts", OLD_TS)],
        }],
        scratchpad: Vec::new(),
    };
    let now = Timestamp {
        text: "2020-01-01T01:00:00+00:00".to_string(),
        secs: OLD_SECS + 3600,
    };
    let conflicts = hub
        .report_file_at(activity_req(2, "/a.ts", "editing"), &now)
        .unwrap();
    assert!(conflicts.is_empty(), "the stale record from session 1 is pruned first");
    assert_eq!(hub.file_activities[0].entries.len(), 1);
    assert_eq!(hub.file_activities[0].entries[0].session_id, 2);
}

#[test]
fn path_traversal_rejected_and_not_stored() {
    let mut hub = IntelHub::new();
    let err = hub
        .report_file(activity_req(1, "../secrets.env", "editing"))
        .unwrap_err();
    assert_eq!(err.field, "file_path");
    assert!(hub.file_activities.is_empty());
    assert!(hub.get_all_conflicts().is_empty());
}

#[test]
fn traversal_segment_forms_rejected() {
    let mut hub = IntelHub::new();
    for path in ["..", "../x", "x/..", "/a/../b", "a/../b"] {
        let err = hub
            .report_file(activity_req(1, path, "editing"))
            .unwrap_err();
        assert_eq!(err.field, "file_path", "{} holds a parent segment", path);
    }
    assert!(hub.file_activities.is_empty());
}

#[test]
fn dots_inside_names_are_not_traversal() {
    let mut hub = IntelHub::new();
    for path in ["a..b", "/notes../x", "/a/file..txt", "/..." , "/a../b"] {
        assert!(
            hub.report_file(activity_req(1, path, "editing")).is_ok(),
            "{} contains no parent-directory segment",
            path
        );
    }
    assert_eq!(hub.file_activities.len(), 5);
}

#[test]
fn file_action_rejected() {
    let mut hub = IntelHub::new();
    let err = hub
        .report_file(activity_req(1, "/a.ts", "touching"))
        .unwrap_err();
    assert_eq!(err.field, "action");
}

#[test]
fn file_path_length_rejected() {
    let mut hub = IntelHub::new();
    let long = format!("/{}", "x".repeat(4096));
    let err = hub.report_file(activity_req(1, &long, "editing")).unwrap_err();
    assert_eq!(err.field, "file_path");
}

#[test]
fn scratchpad_write_read_clear() {
    let mut hub = IntelHub::new();
    let entry = hub
        .write_scratchpad(pad_req(1, "architecture", "layout", "modules"))
        .unwrap();
    assert_eq!(entry.id.len(), 36);
    assert_eq!(entry.title, "layout");
    let all = hub.read_scratchpad();
    assert_eq!(all.len(), 1);
    assert_eq!(all[0].content, "modules");
    hub.clear_scratchpad();
    assert!(hub.read_scratchpad().is_empty());
}

#[test]
fn scratchpad_ring_keeps_50_most_recent() {
    let mut hub = IntelHub::new();
    for i in 0..55 {
        hub.write_scratchpad(pad_req(1, "note", &format!("t{}", i), "c"))
            .unwrap();
    }
    let all = hub.read_scratchpad();
    assert_eq!(all.len(), 50);
    assert_eq!(all[0].title, "t5");
    assert_eq!(all[49].title, "t54");
}

#[test]
fn scratchpad_validation_errors() {
    let mut hub = IntelHub::new();
    let err = hub
        .write_scratchpad(pad_req(1, "musings", "t", "c"))
        .unwrap_err();
    assert_eq!(err.field, "category");
    let err = hub
        .write_scratchpad(pad_req(1, "note", &"t".repeat(257), "c"))
        .unwrap_err();
    assert_eq!(err.field, "title");
    let err = hub
        .write_scratchpad(pad_req(1, "note", "t", &"c".repeat(100001)))
        .unwrap_err();
    assert_eq!(err.field, "content");
    assert!(hub.read_scratchpad().is_empty());
}
