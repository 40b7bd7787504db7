//! The intelligence hub: an in-memory store of broadcast messages, shared
//! scratchpad notes and per-file activity records, with conflict detection
//! between sessions that report work on the same file.
//!
//! Every operation first validates its request against closed category
//! sets and size limits, then mutates the store; bad input is answered
//! with a structured validation error and leaves the store unchanged.
//! Message and scratchpad stores are bounded ring buffers; file activity
//! is pruned by age, except that records whose timestamp does not parse
//! are kept so that no data is lost silently.

use vstd::prelude::*;
use vstd::utf8::encode_utf8;

use crate::clock::{now_timestamp, parse_rfc3339_secs, rfc3339_secs, Timestamp};
use crate::ids::fresh_id;
use crate::strutil::{contains_parent_segment, has_parent_segment, str_eq};

verus! {

/// Most broadcast messages kept in memory.
pub const MAX_MESSAGES: usize = 200;

/// Most scratchpad entries kept in memory.
pub const MAX_SCRATCHPAD: usize = 50;

/// File activity older than this many seconds is pruned.
pub const FILE_ACTIVITY_TTL_SECS: i64 = 300;

/// Largest accepted broadcast message body, in bytes.
pub const MAX_MESSAGE_LEN: usize = 10000;

/// Largest accepted scratchpad title, in bytes.
pub const MAX_TITLE_LEN: usize = 256;

/// Largest accepted scratchpad content, in bytes.
pub const MAX_CONTENT_LEN: usize = 100000;

/// Largest accepted file path, in bytes.
pub const MAX_FILE_PATH_LEN: usize = 4096;

// ---------------------------------------------------------------------------
// Stored records and their mathematical views
// ---------------------------------------------------------------------------

/// A message sent from one session to all others.
#[derive(Debug, Clone)]
pub struct BroadcastMessage {
    pub id: String,
    pub session_id: u32,
    pub instance_id: String,
    pub category: String,
    pub message: String,
    /// Optional structured metadata, carried as JSON text.
    pub metadata: Option<String>,
    pub timestamp: String,
}

/// One session's reported activity on one file.
#[derive(Debug, Clone)]
pub struct FileActivity {
    pub session_id: u32,
    pub file_path: String,
    pub action: String,
    pub timestamp: String,
}

/// A conflict between several sessions touching the same file.
#[derive(Debug, Clone)]
pub struct FileConflict {
    pub file_path: String,
    /// The distinct session ids involved, in ascending order.
    pub sessions: Vec<u32>,
    /// The activity records that contributed to the conflict.
    pub actions: Vec<FileActivity>,
}

/// A shared scratchpad note visible to all sessions.
#[derive(Debug, Clone)]
pub struct ScratchpadEntry {
    pub id: String,
    pub session_id: u32,
    pub category: String,
    pub title: String,
    pub content: String,
    pub timestamp: String,
}

// ---------------------------------------------------------------------------
// Requests
// ---------------------------------------------------------------------------

/// A request to broadcast a message.
#[derive(Debug, Clone)]
pub struct BroadcastRequest {
    pub session_id: u32,
    pub instance_id: String,
    pub category: String,
    pub message: String,
    /// Optional structured metadata, carried as JSON text.
    pub metadata: Option<String>,
}

/// A request to record file activity.
#[derive(Debug, Clone)]
pub struct FileActivityRequest {
    pub session_id: u32,
    pub instance_id: String,
    pub file_path: String,
    pub action: String,
}

/// A request to write a scratchpad note.
#[derive(Debug, Clone)]
pub struct ScratchpadWriteRequest {
    pub session_id: u32,
    pub instance_id: String,
    pub category: String,
    pub title: String,
    pub content: String,
}

/// A validation failure: the offending field and a readable reason.
#[derive(Debug, Clone)]
pub struct IntelValidationError {
    pub field: String,
    pub message: String,
}

// ---------------------------------------------------------------------------
// Validation
// ---------------------------------------------------------------------------

/// The closed set of broadcast categories.
pub open spec fn is_broadcast_category(s: Seq<char>) -> bool {
    s == "discovery"@ || s == "warning"@ || s == "knowledge"@ || s == "info"@
}

/// The closed set of scratchpad categories.
pub open spec fn is_scratchpad_category(s: Seq<char>) -> bool {
    s == "architecture"@ || s == "api"@ || s == "decision"@ || s == "note"@
}

/// The closed set of file actions.
pub open spec fn is_file_action(s: Seq<char>) -> bool {
    s == "editing"@ || s == "created"@ || s == "deleted"@
}

/// The byte length of a string's content.
pub open spec fn byte_len(s: Seq<char>) -> nat {
    encode_utf8(s).len()
}

/// A broadcast request that passes validation.
pub open spec fn broadcast_ok(req: BroadcastRequest) -> bool {
    is_broadcast_category(req.category@) && byte_len(req.message@) <= MAX_MESSAGE_LEN
}

/// A file activity request that passes validation.
pub open spec fn file_activity_ok(req: FileActivityRequest) -> bool {
    is_file_action(req.action@) && byte_len(req.file_path@) <= MAX_FILE_PATH_LEN
        && !has_parent_segment(req.file_path@)
}

/// A scratchpad request that passes validation.
pub open spec fn scratchpad_ok(req: ScratchpadWriteRequest) -> bool {
    is_scratchpad_category(req.category@) && byte_len(req.title@) <= MAX_TITLE_LEN && byte_len(
        req.content@,
    ) <= MAX_CONTENT_LEN
}

fn is_broadcast_category_exec(s: &str) -> (r: bool)
    ensures
        r == is_broadcast_category(s@),
{
    str_eq(s, "discovery") || str_eq(s, "warning") || str_eq(s, "knowledge") || str_eq(s, "info")
}

fn is_scratchpad_category_exec(s: &str) -> (r: bool)
    ensures
        r == is_scratchpad_category(s@),
{
    str_eq(s, "architecture") || str_eq(s, "api") || str_eq(s, "decision") || str_eq(s, "note")
}

fn is_file_action_exec(s: &str) -> (r: bool)
    ensures
        r == is_file_action(s@),
{
    str_eq(s, "editing") || str_eq(s, "created") || str_eq(s, "deleted")
}

fn err(field: &str, message: &str) -> (r: IntelValidationError)
    ensures
        r.field@ == field@,
        r.message@ == message@,
{
    IntelValidationError { field: field.to_owned(), message: message.to_owned() }
}

/// Checks a broadcast request: category in the closed set, body within the
/// byte limit. Reports the first violated field.
pub fn validate_broadcast(req: &BroadcastRequest) -> (r: Result<(), IntelValidationError>)
    ensures
        r is Ok <==> broadcast_ok(*req),
        !is_broadcast_category(req.category@) ==> (r matches Err(e) && e.field@ == "category"@),
        is_broadcast_category(req.category@) && byte_len(req.message@) > MAX_MESSAGE_LEN ==> (
        r matches Err(e) && e.field@ == "message"@),
{
    if !is_broadcast_category_exec(req.category.as_str()) {
        return Err(err("category", "must be one of: discovery, warning, knowledge, info"));
    }
    if req.message.as_str().as_bytes().len() > MAX_MESSAGE_LEN {
        return Err(err("message", "exceeds max length of 10000 bytes"));
    }
    Ok(())
}

/// Checks a file activity request: action in the closed set, path within
/// the byte limit and free of parent-directory traversal. Reports the
/// first violated field.
pub fn validate_file_activity(req: &FileActivityRequest) -> (r: Result<
    (),
    IntelValidationError,
>)
    ensures
        r is Ok <==> file_activity_ok(*req),
        !is_file_action(req.action@) ==> (r matches Err(e) && e.field@ == "action"@),
        is_file_action(req.action@) && !(byte_len(req.file_path@) <= MAX_FILE_PATH_LEN
            && !has_parent_segment(req.file_path@)) ==> (r matches Err(e) && e.field@ == "file_path"@),
{
    if !is_file_action_exec(req.action.as_str()) {
        return Err(err("action", "must be one of: editing, created, deleted"));
    }
    if req.file_path.as_str().as_bytes().len() > MAX_FILE_PATH_LEN {
        return Err(err("file_path", "exceeds max length of 4096 bytes"));
    }
    if contains_parent_segment(req.file_path.as_str()) {
        return Err(err("file_path", "path traversal not allowed"));
    }
    Ok(())
}

/// Checks a scratchpad write: category in the closed set, title and
/// content within their byte limits. Reports the first violated field.
pub fn validate_scratchpad(req: &ScratchpadWriteRequest) -> (r: Result<
    (),
    IntelValidationError,
>)
    ensures
        r is Ok <==> scratchpad_ok(*req),
        !is_scratchpad_category(req.category@) ==> (r matches Err(e) && e.field@ == "category"@),
        is_scratchpad_category(req.category@) && byte_len(req.title@) > MAX_TITLE_LEN ==> (
        r matches Err(e) && e.field@ == "title"@),
        is_scratchpad_category(req.category@) && byte_len(req.title@) <= MAX_TITLE_LEN && byte_len(
            req.content@,
        ) > MAX_CONTENT_LEN ==> (r matches Err(e) && e.field@ == "content"@),
{
    if !is_scratchpad_category_exec(req.category.as_str()) {
        return Err(err("category", "must be one of: architecture, api, decision, note"));
    }
    if req.title.as_str().as_bytes().len() > MAX_TITLE_LEN {
        return Err(err("title", "exceeds max length of 256 bytes"));
    }
    if req.content.as_str().as_bytes().len() > MAX_CONTENT_LEN {
        return Err(err("content", "exceeds max length of 100000 bytes"));
    }
    Ok(())
}

// ---------------------------------------------------------------------------
// The store
// ---------------------------------------------------------------------------

/// The activity records reported for one file path.
#[derive(Debug, Clone)]
pub struct PathActivity {
    pub path: String,
    pub entries: Vec<FileActivity>,
}

/// The hub's in-memory state: bounded message and scratchpad buffers and
/// the per-path activity records.
#[derive(Debug, Clone)]
pub struct IntelHub {
    pub messages: Vec<BroadcastMessage>,
    pub file_activities: Vec<PathActivity>,
    pub scratchpad: Vec<ScratchpadEntry>,
}

/// A well-formed activity bucket: every record in it names the bucket's path.
pub open spec fn bucket_wf(b: PathActivity) -> bool {
    forall|k: int| 0 <= k < b.entries@.len() ==> (#[trigger] b.entries@[k]).file_path@ == b.path@
}

impl IntelHub {
    /// The hub's invariant: buffers within their bounds, one bucket per
    /// path, and every record filed under its own path.
    pub open spec fn wf(self) -> bool {
        &&& self.messages@.len() <= MAX_MESSAGES
        &&& self.scratchpad@.len() <= MAX_SCRATCHPAD
        &&& forall|i: int, j: int|
            0 <= i < j < self.file_activities@.len() ==> (
            #[trigger] self.file_activities@[i]).path@ != (
            #[trigger] self.file_activities@[j]).path@
        &&& forall|i: int|
            0 <= i < self.file_activities@.len() ==> bucket_wf(
                #[trigger] self.file_activities@[i],
            )
    }

    /// An empty hub.
    pub fn new() -> (r: Self)
        ensures
            r.wf(),
            r.messages@.len() == 0,
            r.file_activities@.len() == 0,
            r.scratchpad@.len() == 0,
    {
        IntelHub { messages: Vec::new(), file_activities: Vec::new(), scratchpad: Vec::new() }
    }
}

/// Appending to a bounded buffer: the new element goes to the back, and
/// whatever exceeds the bound falls off the front, oldest first.
pub open spec fn ring_append<T>(s: Seq<T>, x: T, max: int) -> Seq<T> {
    let grown = s.push(x);
    if grown.len() > max {
        grown.skip(grown.len() - max)
    } else {
        grown
    }
}

fn copy_string_opt(s: &Option<String>) -> (r: Option<String>)
    ensures
        r == *s,
{
    match s {
        Some(v) => Some(v.clone()),
        None => None,
    }
}

fn copy_msg(m: &BroadcastMessage) -> (r: BroadcastMessage)
    ensures
        r == *m,
{
    BroadcastMessage {
        id: m.id.clone(),
        session_id: m.session_id,
        instance_id: m.instance_id.clone(),
        category: m.category.clone(),
        message: m.message.clone(),
        metadata: copy_string_opt(&m.metadata),
        timestamp: m.timestamp.clone(),
    }
}

fn copy_activity(a: &FileActivity) -> (r: FileActivity)
    ensures
        r == *a,
{
    FileActivity {
        session_id: a.session_id,
        file_path: a.file_path.clone(),
        action: a.action.clone(),
        timestamp: a.timestamp.clone(),
    }
}

fn copy_pad(e: &ScratchpadEntry) -> (r: ScratchpadEntry)
    ensures
        r == *e,
{
    ScratchpadEntry {
        id: e.id.clone(),
        session_id: e.session_id,
        category: e.category.clone(),
        title: e.title.clone(),
        content: e.content.clone(),
        timestamp: e.timestamp.clone(),
    }
}

/// Keeps the messages that did not come from the given session.
pub open spec fn not_from(session_id: u32) -> spec_fn(BroadcastMessage) -> bool {
    |m: BroadcastMessage| m.session_id != session_id
}

impl IntelHub {
    /// Validates a broadcast request, stamps it with a fresh id and the
    /// current time, and appends it to the bounded message buffer.
    pub fn add_broadcast(&mut self, req: BroadcastRequest) -> (r: Result<
        BroadcastMessage,
        IntelValidationError,
    >)
        requires
            old(self).wf(),
        ensures
            final(self).wf(),
            r is Ok <==> broadcast_ok(req),
            !is_broadcast_category(req.category@) ==> (r matches Err(e) && e.field@
                == "category"@),
            is_broadcast_category(req.category@) && byte_len(req.message@) > MAX_MESSAGE_LEN ==> (
            r matches Err(e) && e.field@ == "message"@),
            !broadcast_ok(req) ==> *final(self) == *old(self),
            broadcast_ok(req) ==> (r matches Ok(m) && m.session_id == req.session_id
                && m.instance_id == req.instance_id && m.category == req.category && m.message
                == req.message && m.metadata == req.metadata && m.id@.len() == 36 && rfc3339_secs(
                m.timestamp@,
            ) is Some && final(self).messages@ == ring_append(
                old(self).messages@,
                m,
                MAX_MESSAGES as int,
            ) && final(self).file_activities == old(self).file_activities && final(self).scratchpad
                == old(self).scratchpad),
    {
        if let Err(e) = validate_broadcast(&req) {
            return Err(e);
        }
        let ts = now_timestamp();
        let msg = BroadcastMessage {
            id: fresh_id(),
            session_id: req.session_id,
            instance_id: req.instance_id,
            category: req.category,
            message: req.message,
            metadata: req.metadata,
            timestamp: ts.text,
        };
        self.messages.push(copy_msg(&msg));
        if self.messages.len() > MAX_MESSAGES {
            let ghost grown = self.messages@;
            self.messages.remove(0);
            proof {
                assert(self.messages@ =~= grown.skip(1));
            }
        }
        Ok(msg)
    }

    /// A snapshot of the message buffer with the caller's own messages
    /// filtered out, insertion order preserved.
    pub fn get_messages_for(&self, session_id: u32) -> (r: Vec<BroadcastMessage>)
        ensures
            r@ == self.messages@.filter(not_from(session_id)),
    {
        let mut out: Vec<BroadcastMessage> = Vec::new();
        proof {
            reveal(Seq::filter);
            assert(out@ =~= self.messages@.take(0).filter(not_from(session_id)));
        }
        let mut i: usize = 0;
        while i < self.messages.len()
            invariant
                i <= self.messages@.len(),
                out@ == self.messages@.take(i as int).filter(not_from(session_id)),
            decreases self.messages@.len() - i,
        {
            let m = &self.messages[i];
            if m.session_id != session_id {
                out.push(copy_msg(m));
            }
            proof {
                reveal(Seq::filter);
                let t1 = self.messages@.take(i + 1);
                assert(t1.drop_last() =~= self.messages@.take(i as int));
                assert(t1.last() == self.messages@[i as int]);
            }
            i = i + 1;
        }
        proof {
            assert(self.messages@.take(self.messages@.len() as int) =~= self.messages@);
        }
        out
    }

    /// A snapshot of the whole message buffer.
    pub fn get_all_messages(&self) -> (r: Vec<BroadcastMessage>)
        ensures
            r@ == self.messages@,
    {
        let mut out: Vec<BroadcastMessage> = Vec::new();
        let mut i: usize = 0;
        while i < self.messages.len()
            invariant
                i <= self.messages@.len(),
                out@ == self.messages@.take(i as int),
            decreases self.messages@.len() - i,
        {
            out.push(copy_msg(&self.messages[i]));
            proof {
                assert(out@ =~= self.messages@.take(i + 1));
            }
            i = i + 1;
        }
        proof {
            assert(self.messages@.take(self.messages@.len() as int) =~= self.messages@);
        }
        out
    }

    /// Validates a scratchpad write, stamps it, and appends it to the
    /// bounded scratchpad buffer.
    pub fn write_scratchpad(&mut self, req: ScratchpadWriteRequest) -> (r: Result<
        ScratchpadEntry,
        IntelValidationError,
    >)
        requires
            old(self).wf(),
        ensures
            final(self).wf(),
            r is Ok <==> scratchpad_ok(req),
            !is_scratchpad_category(req.category@) ==> (r matches Err(e) && e.field@
                == "category"@),
            is_scratchpad_category(req.category@) && byte_len(req.title@) > MAX_TITLE_LEN ==> (
            r matches Err(e) && e.field@ == "title"@),
            is_scratchpad_category(req.category@) && byte_len(req.title@) <= MAX_TITLE_LEN
                && byte_len(req.content@) > MAX_CONTENT_LEN ==> (r matches Err(e) && e.field@
                == "content"@),
            !scratchpad_ok(req) ==> *final(self) == *old(self),
            scratchpad_ok(req) ==> (r matches Ok(entry) && entry.session_id == req.session_id
                && entry.category == req.category && entry.title == req.title && entry.content
                == req.content && entry.id@.len() == 36 && rfc3339_secs(entry.timestamp@) is Some
                && final(self).scratchpad@ == ring_append(
                old(self).scratchpad@,
                entry,
                MAX_SCRATCHPAD as int,
            ) && final(self).messages == old(self).messages && final(self).file_activities == old(
                self,
            ).file_activities),
    {
        if let Err(e) = validate_scratchpad(&req) {
            return Err(e);
        }
        let ts = now_timestamp();
        let entry = ScratchpadEntry {
            id: fresh_id(),
            session_id: req.session_id,
            category: req.category,
            title: req.title,
            content: req.content,
            timestamp: ts.text,
        };
        self.scratchpad.push(copy_pad(&entry));
        if self.scratchpad.len() > MAX_SCRATCHPAD {
            let ghost grown = self.scratchpad@;
            self.scratchpad.remove(0);
            proof {
                assert(self.scratchpad@ =~= grown.skip(1));
            }
        }
        Ok(entry)
    }

    /// A snapshot of all scratchpad entries.
    pub fn read_scratchpad(&self) -> (r: Vec<ScratchpadEntry>)
        ensures
            r@ == self.scratchpad@,
    {
        let mut out: Vec<ScratchpadEntry> = Vec::new();
        let mut i: usize = 0;
        while i < self.scratchpad.len()
            invariant
                i <= self.scratchpad@.len(),
                out@ == self.scratchpad@.take(i as int),
            decreases self.scratchpad@.len() - i,
        {
            out.push(copy_pad(&self.scratchpad[i]));
            proof {
                assert(out@ =~= self.scratchpad@.take(i + 1));
            }
            i = i + 1;
        }
        proof {
            assert(self.scratchpad@.take(self.scratchpad@.len() as int) =~= self.scratchpad@);
        }
        out
    }

    /// Removes every scratchpad entry; messages and file activity are
    /// untouched.
    pub fn clear_scratchpad(&mut self)
        requires
            old(self).wf(),
        ensures
            final(self).wf(),
            final(self).scratchpad@.len() == 0,
            final(self).messages == old(self).messages,
            final(self).file_activities == old(self).file_activities,
    {
        self.scratchpad.clear();
    }
}

// ---------------------------------------------------------------------------
// File activity: pruning by age and conflict detection
// ---------------------------------------------------------------------------

/// A record is fresh at `now` when its timestamp parses to an instant
/// less than the TTL ago. A record whose timestamp does not parse is
/// treated as fresh: it is kept rather than silently dropped.
pub open spec fn activity_fresh(a: FileActivity, now: i64) -> bool {
    match rfc3339_secs(a.timestamp@) {
        Some(t) => now - t < FILE_ACTIVITY_TTL_SECS,
        None => true,
    }
}

/// Keeps the records that are fresh at `now`.
pub open spec fn fresh_at(now: i64) -> spec_fn(FileActivity) -> bool {
    |a: FileActivity| activity_fresh(a, now)
}

/// The distinct sessions that appear in a run of activity records.
pub open spec fn session_ids_of(entries: Seq<FileActivity>) -> Set<u32> {
    entries.map_values(|a: FileActivity| a.session_id).to_set()
}

/// Strictly ascending: sorted and free of duplicates.
pub open spec fn strictly_sorted(s: Seq<u32>) -> bool {
    forall|i: int, j: int| 0 <= i < j < s.len() ==> s[i] < s[j]
}

/// A correct conflict record for the given path and records: it names the
/// path, carries the records, and lists the distinct contributing
/// sessions in ascending order — at least two of them.
pub open spec fn conflict_ok(c: FileConflict, p: Seq<char>, entries: Seq<FileActivity>) -> bool {
    &&& c.file_path@ == p
    &&& c.actions@ == entries
    &&& strictly_sorted(c.sessions@)
    &&& c.sessions@.to_set() == session_ids_of(entries)
    &&& c.sessions@.len() >= 2
}

/// What a report returns: one conflict record exactly when at least two
/// distinct sessions contributed, none otherwise.
pub open spec fn conflict_list_ok(
    cs: Seq<FileConflict>,
    p: Seq<char>,
    entries: Seq<FileActivity>,
) -> bool {
    if session_ids_of(entries).len() >= 2 {
        cs.len() == 1 && conflict_ok(cs[0], p, entries)
    } else {
        cs.len() == 0
    }
}

fn is_fresh(a: &FileActivity, now: i64) -> (r: bool)
    ensures
        r == activity_fresh(*a, now),
{
    match parse_rfc3339_secs(a.timestamp.as_str()) {
        Some(t) => (now as i128) - (t as i128) < (FILE_ACTIVITY_TTL_SECS as i128),
        None => true,
    }
}

/// Copies the records that are fresh at `now`, in order.
pub fn prune_fresh(entries: &Vec<FileActivity>, now: i64) -> (r: Vec<FileActivity>)
    ensures
        r@ == entries@.filter(fresh_at(now)),
{
    let mut out: Vec<FileActivity> = Vec::new();
    proof {
        reveal(Seq::filter);
        assert(out@ =~= entries@.take(0).filter(fresh_at(now)));
    }
    let mut i: usize = 0;
    while i < entries.len()
        invariant
            i <= entries@.len(),
            out@ == entries@.take(i as int).filter(fresh_at(now)),
        decreases entries@.len() - i,
    {
        let a = &entries[i];
        if is_fresh(a, now) {
            out.push(copy_activity(a));
        }
        proof {
            reveal(Seq::filter);
            let t1 = entries@.take(i + 1);
            assert(t1.drop_last() =~= entries@.take(i as int));
            assert(t1.last() == entries@[i as int]);
        }
        i = i + 1;
    }
    proof {
        assert(entries@.take(entries@.len() as int) =~= entries@);
    }
    out
}

/// Inserts a session id into a strictly ascending list, keeping it
/// strictly ascending; a duplicate is dropped.
fn insert_session(v: &mut Vec<u32>, x: u32)
    requires
        strictly_sorted(old(v)@),
    ensures
        strictly_sorted(final(v)@),
        final(v)@.to_set() == old(v)@.to_set().insert(x),
{
    let mut pos: usize = 0;
    while pos < v.len() && v[pos as usize] < x
        invariant
            pos <= v@.len(),
            strictly_sorted(v@),
            v@ == old(v)@,
            forall|k: int| 0 <= k < pos ==> v@[k] < x,
        decreases v@.len() - pos,
    {
        pos = pos + 1;
    }
    if pos < v.len() && v[pos as usize] == x {
        proof {
            assert(v@.to_set().contains(x));
            assert(v@.to_set() =~= old(v)@.to_set().insert(x));
        }
        return ;
    }
    let ghost pre = v@;
    v.insert(pos, x);
    proof {
        assert(forall|k: int| 0 <= k < pos ==> v@[k] == pre[k]);
        assert(forall|k: int| pos < k < v@.len() ==> v@[k] == pre[k - 1]);
        assert(forall|k: int| pos < k < v@.len() ==> v@[k] > x);
        assert(strictly_sorted(v@));
        assert forall|y: u32| v@.to_set().contains(y) implies pre.to_set().insert(x).contains(
            y,
        ) by {
            let k = choose|k: int| 0 <= k < v@.len() && v@[k] == y;
            if k < pos {
                assert(pre[k] == y);
            } else if k > pos {
                assert(pre[k - 1] == y);
            }
        }
        assert forall|y: u32| pre.to_set().insert(x).contains(y) implies v@.to_set().contains(
            y,
        ) by {
            if y == x {
                assert(v@[pos as int] == x);
            } else {
                let k = choose|k: int| 0 <= k < pre.len() && pre[k] == y;
                if k < pos {
                    assert(v@[k] == y);
                } else {
                    assert(v@[k + 1] == y);
                }
            }
        }
        assert(v@.to_set() =~= pre.to_set().insert(x));
    }
}

/// The distinct session ids of a run of records, in ascending order.
pub fn sorted_sessions(entries: &Vec<FileActivity>) -> (r: Vec<u32>)
    ensures
        strictly_sorted(r@),
        r@.to_set() == session_ids_of(entries@),
{
    let mut out: Vec<u32> = Vec::new();
    proof {
        assert(out@.to_set() =~= session_ids_of(entries@.take(0)));
    }
    let mut i: usize = 0;
    while i < entries.len()
        invariant
            i <= entries@.len(),
            strictly_sorted(out@),
            out@.to_set() == session_ids_of(entries@.take(i as int)),
        decreases entries@.len() - i,
    {
        insert_session(&mut out, entries[i].session_id);
        proof {
            let t1 = entries@.take(i + 1);
            let f = |a: FileActivity| a.session_id;
            assert(t1.map_values(f) =~= entries@.take(i as int).map_values(f).push(
                entries@[i as int].session_id,
            ));
            assert forall|y: u32| t1.map_values(f).to_set().contains(y) implies entries@.take(
                i as int,
            ).map_values(f).to_set().insert(entries@[i as int].session_id).contains(y) by {
                let k = choose|k: int|
                    0 <= k < t1.map_values(f).len() && t1.map_values(f)[k] == y;
                if k < i {
                    assert(entries@.take(i as int).map_values(f)[k] == y);
                }
            }
            assert forall|y: u32|
                entries@.take(i as int).map_values(f).to_set().insert(
                    entries@[i as int].session_id,
                ).contains(y) implies t1.map_values(f).to_set().contains(y) by {
                if y == entries@[i as int].session_id {
                    assert(t1.map_values(f)[i as int] == y);
                } else {
                    let k = choose|k: int|
                        0 <= k < entries@.take(i as int).map_values(f).len() && entries@.take(
                            i as int,
                        ).map_values(f)[k] == y;
                    assert(t1.map_values(f)[k] == y);
                }
            }
            assert(session_ids_of(t1) =~= session_ids_of(entries@.take(i as int)).insert(
                entries@[i as int].session_id,
            ));
        }
        i = i + 1;
    }
    proof {
        assert(entries@.take(entries@.len() as int) =~= entries@);
    }
    out
}

/// Decides whether a run of records for one path is a conflict: it is
/// exactly when at least two distinct sessions contributed. The record
/// lists the sessions sorted and deduplicated.
pub fn detect_conflict(file_path: &str, entries: &Vec<FileActivity>) -> (r: Option<FileConflict>)
    ensures
        r is Some <==> session_ids_of(entries@).len() >= 2,
        r matches Some(c) ==> conflict_ok(c, file_path@, entries@),
{
    let sessions = sorted_sessions(entries);
    proof {
        assert(sessions@.no_duplicates()) by {
            assert forall|i: int, j: int|
                (0 <= i < sessions@.len() && 0 <= j < sessions@.len() && i
                    != j) implies sessions@[i] != sessions@[j] by {
                if i < j {
                    assert(sessions@[i] < sessions@[j]);
                } else {
                    assert(sessions@[j] < sessions@[i]);
                }
            }
        }
        sessions@.unique_seq_to_set();
    }
    if sessions.len() > 1 {
        let mut actions: Vec<FileActivity> = Vec::new();
        let mut i: usize = 0;
        while i < entries.len()
            invariant
                i <= entries@.len(),
                actions@ == entries@.take(i as int),
            decreases entries@.len() - i,
        {
            actions.push(copy_activity(&entries[i]));
            proof {
                assert(actions@ =~= entries@.take(i + 1));
            }
            i = i + 1;
        }
        proof {
            assert(entries@.take(entries@.len() as int) =~= entries@);
        }
        Some(FileConflict { file_path: file_path.to_owned(), sessions, actions })
    } else {
        None
    }
}

// ---------------------------------------------------------------------------
// Reporting activity and sweeping for conflicts
// ---------------------------------------------------------------------------

/// Some bucket carries this path.
pub open spec fn has_bucket(s: Seq<PathActivity>, p: Seq<char>) -> bool {
    exists|i: int| 0 <= i < s.len() && (#[trigger] s[i]).path@ == p
}

/// The index of the bucket carrying this path; meaningful only when one
/// exists, and unique in a well-formed store.
pub open spec fn bucket_index(s: Seq<PathActivity>, p: Seq<char>) -> int {
    choose|i: int| 0 <= i < s.len() && (#[trigger] s[i]).path@ == p
}

/// The records stored for this path; empty when no bucket carries it.
pub open spec fn bucket_entries(s: Seq<PathActivity>, p: Seq<char>) -> Seq<FileActivity> {
    if has_bucket(s, p) {
        s[bucket_index(s, p)].entries@
    } else {
        Seq::empty()
    }
}

/// What a report stores under its path: the records that were already
/// there and are still fresh, then the new record, stamped with the
/// report's own instant.
pub open spec fn new_entries(
    pre: Seq<PathActivity>,
    req: FileActivityRequest,
    now: Timestamp,
) -> Seq<FileActivity> {
    bucket_entries(pre, req.file_path@).filter(fresh_at(now.secs)).push(
        FileActivity {
            session_id: req.session_id,
            file_path: req.file_path,
            action: req.action,
            timestamp: now.text,
        },
    )
}

/// How one accepted report changes the activity store: the path's bucket
/// is replaced by the pruned records plus the new one; every other bucket
/// is untouched; a path not seen before gets a new bucket at the back.
pub open spec fn report_applied(
    pre: Seq<PathActivity>,
    post: Seq<PathActivity>,
    req: FileActivityRequest,
    now: Timestamp,
) -> bool {
    let p = req.file_path@;
    let ne = new_entries(pre, req, now);
    if has_bucket(pre, p) {
        let i = bucket_index(pre, p);
        &&& post.len() == pre.len()
        &&& post[i].path == pre[i].path
        &&& post[i].entries@ == ne
        &&& forall|j: int| 0 <= j < pre.len() && j != i ==> post[j] == pre[j]
    } else {
        &&& post.len() == pre.len() + 1
        &&& forall|j: int| 0 <= j < pre.len() ==> post[j] == pre[j]
        &&& post.last().path@ == p
        &&& post.last().entries@ == ne
    }
}

impl IntelHub {
    fn find_bucket(&self, path: &str) -> (r: Option<usize>)
        ensures
            r matches Some(i) ==> i < self.file_activities@.len()
                && self.file_activities@[i as int].path@ == path@,
            r is None ==> !has_bucket(self.file_activities@, path@),
    {
        let mut i: usize = 0;
        while i < self.file_activities.len()
            invariant
                i <= self.file_activities@.len(),
                forall|k: int|
                    0 <= k < i ==> (#[trigger] self.file_activities@[k]).path@ != path@,
            decreases self.file_activities@.len() - i,
        {
            if str_eq(self.file_activities[i].path.as_str(), path) {
                return Some(i);
            }
            i = i + 1;
        }
        None
    }

    /// Validates an activity report, prunes the path's stale records,
    /// stores the new record under the report's instant, and answers with
    /// the conflicts that the path now shows: one record when at least
    /// two distinct sessions are on it, none otherwise.
    pub fn report_file_at(&mut self, req: FileActivityRequest, now: &Timestamp) -> (r: Result<
        Vec<FileConflict>,
        IntelValidationError,
    >)
        requires
            old(self).wf(),
        ensures
            final(self).wf(),
            r is Ok <==> file_activity_ok(req),
            !is_file_action(req.action@) ==> (r matches Err(e) && e.field@ == "action"@),
            is_file_action(req.action@) && !(byte_len(req.file_path@) <= MAX_FILE_PATH_LEN
                && !has_parent_segment(req.file_path@)) ==> (r matches Err(e) && e.field@
                == "file_path"@),
            !file_activity_ok(req) ==> *final(self) == *old(self),
            file_activity_ok(req) ==> final(self).messages == old(self).messages
                && final(self).scratchpad == old(self).scratchpad && report_applied(
                old(self).file_activities@,
                final(self).file_activities@,
                req,
                *now,
            ),
            r matches Ok(cs) ==> conflict_list_ok(
                cs@,
                req.file_path@,
                new_entries(old(self).file_activities@, req, *now),
            ),
    {
        if let Err(e) = validate_file_activity(&req) {
            return Err(e);
        }
        let activity = FileActivity {
            session_id: req.session_id,
            file_path: req.file_path.clone(),
            action: req.action.clone(),
            timestamp: now.text.clone(),
        };
        let ghost pre = self.file_activities@;
        let slot: usize;
        match self.find_bucket(req.file_path.as_str()) {
            Some(i) => {
                let bucket = self.file_activities.remove(i);
                let mut entries = prune_fresh(&bucket.entries, now.secs);
                entries.push(activity);
                self.file_activities.insert(i, PathActivity { path: bucket.path, entries });
                slot = i;
                proof {
                    assert(self.file_activities@ =~= pre.update(
                        i as int,
                        self.file_activities@[i as int],
                    ));
                    assert(has_bucket(pre, req.file_path@));
                    let ci = bucket_index(pre, req.file_path@);
                    assert(pre[ci].path@ == req.file_path@);
                    assert(ci == i as int);
                }
            },
            None => {
                let mut entries: Vec<FileActivity> = Vec::new();
                entries.push(activity);
                self.file_activities.push(
                    PathActivity { path: req.file_path.clone(), entries },
                );
                slot = self.file_activities.len() - 1;
                proof {
                    assert(bucket_entries(pre, req.file_path@) =~= Seq::<FileActivity>::empty());
                    assert(Seq::<FileActivity>::empty().filter(fresh_at(now.secs))
                        =~= Seq::<FileActivity>::empty()) by {
                        reveal(Seq::filter);
                    }
                    assert(self.file_activities@.drop_last() =~= pre);
                }
            },
        }
        let conflict = detect_conflict(
            self.file_activities[slot].path.as_str(),
            &self.file_activities[slot].entries,
        );
        let mut conflicts: Vec<FileConflict> = Vec::new();
        if let Some(c) = conflict {
            conflicts.push(c);
        }
        proof {
            let ne = new_entries(pre, req, *now);
            assert(self.file_activities@[slot as int].entries@ == ne);
            assert forall|i: int, j: int|
                0 <= i < j < self.file_activities@.len() implies (
            #[trigger] self.file_activities@[i]).path@ != (
            #[trigger] self.file_activities@[j]).path@ by {
                if i != slot as int && j != slot as int {
                    assert(self.file_activities@[i] == pre[i]);
                    assert(self.file_activities@[j] == pre[j]);
                }
            }
            assert forall|i: int|
                0 <= i < self.file_activities@.len() implies bucket_wf(
                #[trigger] self.file_activities@[i],
            ) by {
                if i == slot as int {
                    let b = self.file_activities@[i];
                    assert forall|k: int| 0 <= k < b.entries@.len() implies (
                    #[trigger] b.entries@[k]).file_path@ == b.path@ by {
                        if k < ne.len() - 1 {
                            let kept = bucket_entries(pre, req.file_path@).filter(
                                fresh_at(now.secs),
                            );
                            bucket_entries(pre, req.file_path@).lemma_filter_pred(
                                fresh_at(now.secs),
                                k,
                            );
                            bucket_entries(pre, req.file_path@).lemma_filter_contains_rev(
                                fresh_at(now.secs),
                                kept[k],
                            );
                        }
                    }
                } else {
                    assert(self.file_activities@[i] == pre[i]);
                }
            }
        }
        Ok(conflicts)
    }

    /// Validates and stores an activity report against the current wall
    /// clock, answering with the path's conflicts. The instant used is
    /// one clock reading, the same for pruning and for the new record.
    pub fn report_file(&mut self, req: FileActivityRequest) -> (r: Result<
        Vec<FileConflict>,
        IntelValidationError,
    >)
        requires
            old(self).wf(),
        ensures
            final(self).wf(),
            r is Ok <==> file_activity_ok(req),
            !is_file_action(req.action@) ==> (r matches Err(e) && e.field@ == "action"@),
            is_file_action(req.action@) && !(byte_len(req.file_path@) <= MAX_FILE_PATH_LEN
                && !has_parent_segment(req.file_path@)) ==> (r matches Err(e) && e.field@
                == "file_path"@),
            !file_activity_ok(req) ==> *final(self) == *old(self),
            file_activity_ok(req) ==> final(self).messages == old(self).messages
                && final(self).scratchpad == old(self).scratchpad,
            file_activity_ok(req) ==> exists|t: Timestamp|
                {
                    &&& rfc3339_secs(t.text@) == Some(t.secs)
                    &&& #[trigger] report_applied(
                        old(self).file_activities@,
                        final(self).file_activities@,
                        req,
                        t,
                    )
                    &&& r matches Ok(cs) && conflict_list_ok(
                        cs@,
                        req.file_path@,
                        new_entries(old(self).file_activities@, req, t),
                    )
                },
    {
        let now = now_timestamp();
        let r = self.report_file_at(req, &now);
        proof {
            if file_activity_ok(req) {
                assert(rfc3339_secs(now.text@) == Some(now.secs));
            }
        }
        r
    }
}

/// The conflicts that a sweep of the whole store finds at `now`: for each
/// bucket in store order, the path and its fresh records, kept when at
/// least two distinct sessions are on them.
pub open spec fn conflicts_of(s: Seq<PathActivity>, now: i64) -> Seq<(Seq<char>, Seq<
    FileActivity,
>)>
    decreases s.len(),
{
    if s.len() == 0 {
        Seq::empty()
    } else {
        let rest = conflicts_of(s.drop_last(), now);
        let fresh = s.last().entries@.filter(fresh_at(now));
        if session_ids_of(fresh).len() >= 2 {
            rest.push((s.last().path@, fresh))
        } else {
            rest
        }
    }
}

/// A conflict record that is internally consistent: sessions are the
/// distinct contributors of its records, ascending, at least two.
pub open spec fn conflict_entry_ok(c: FileConflict) -> bool {
    &&& strictly_sorted(c.sessions@)
    &&& c.sessions@.to_set() == session_ids_of(c.actions@)
    &&& c.sessions@.len() >= 2
}

impl IntelHub {
    /// Sweeps every tracked path at the given instant and returns every
    /// path on which at least two distinct sessions have fresh activity.
    /// The store itself is not changed.
    pub fn get_all_conflicts_at(&self, now: i64) -> (r: Vec<FileConflict>)
        ensures
            r@.map_values(|c: FileConflict| (c.file_path@, c.actions@)) == conflicts_of(
                self.file_activities@,
                now,
            ),
            forall|i: int| 0 <= i < r@.len() ==> conflict_entry_ok(#[trigger] r@[i]),
    {
        let mut out: Vec<FileConflict> = Vec::new();
        let ghost pair = |c: FileConflict| (c.file_path@, c.actions@);
        proof {
            assert(out@.map_values(pair) =~= conflicts_of(self.file_activities@.take(0), now));
        }
        let mut i: usize = 0;
        while i < self.file_activities.len()
            invariant
                i <= self.file_activities@.len(),
                out@.map_values(|c: FileConflict| (c.file_path@, c.actions@)) == conflicts_of(
                    self.file_activities@.take(i as int),
                    now,
                ),
                forall|k: int| 0 <= k < out@.len() ==> conflict_entry_ok(#[trigger] out@[k]),
            decreases self.file_activities@.len() - i,
        {
            let bucket = &self.file_activities[i];
            let fresh = prune_fresh(&bucket.entries, now);
            let ghost before = out@;
            if let Some(c) = detect_conflict(bucket.path.as_str(), &fresh) {
                out.push(c);
            }
            proof {
                let t1 = self.file_activities@.take(i + 1);
                assert(t1.drop_last() =~= self.file_activities@.take(i as int));
                assert(t1.last() == self.file_activities@[i as int]);
                assert(out@.map_values(|c: FileConflict| (c.file_path@, c.actions@)) =~=
                    conflicts_of(t1, now));
            }
            i = i + 1;
        }
        proof {
            assert(self.file_activities@.take(self.file_activities@.len() as int)
                =~= self.file_activities@);
        }
        out
    }

    /// Sweeps every tracked path at the current wall clock.
    pub fn get_all_conflicts(&self) -> (r: Vec<FileConflict>)
        ensures
            exists|now: i64|
                r@.map_values(|c: FileConflict| (c.file_path@, c.actions@))
                    == #[trigger] conflicts_of(self.file_activities@, now),
            forall|i: int| 0 <= i < r@.len() ==> conflict_entry_ok(#[trigger] r@[i]),
    {
        let now = now_timestamp();
        let r = self.get_all_conflicts_at(now.secs);
        r
    }
}


// ---------------------------------------------------------------------------
// Laws
// ---------------------------------------------------------------------------

/// A whole run of appends folded through the bounded buffer, starting
/// from empty.
pub open spec fn ring_fold<T>(s: Seq<T>, max: int) -> Seq<T>
    decreases s.len(),
{
    if s.len() == 0 {
        Seq::empty()
    } else {
        ring_append(ring_fold(s.drop_last(), max), s.last(), max)
    }
}

/// However many elements are appended, the bounded buffer holds exactly
/// the most recent `max` of them, oldest first; everything earlier has
/// been evicted.
pub proof fn lemma_ring_fold_keeps_most_recent<T>(s: Seq<T>, max: int)
    requires
        max >= 1,
    ensures
        s.len() <= max ==> ring_fold(s, max) == s,
        s.len() > max ==> ring_fold(s, max) == s.skip(s.len() - max),
    decreases s.len(),
{
    if s.len() == 0 {
        assert(ring_fold(s, max) =~= s);
    } else {
        let d = s.drop_last();
        lemma_ring_fold_keeps_most_recent::<T>(d, max);
        let f = ring_fold(d, max);
        if s.len() <= max {
            assert(f == d);
            assert(f.push(s.last()) =~= s);
            assert(ring_append(f, s.last(), max) =~= s);
        } else if d.len() <= max {
            assert(f == d);
            let grown = f.push(s.last());
            assert(grown =~= s);
            assert(ring_append(f, s.last(), max) == grown.skip(grown.len() - max));
            assert(grown.skip(grown.len() - max) =~= s.skip(s.len() - max));
        } else {
            assert(f == d.skip(d.len() - max));
            let grown = f.push(s.last());
            assert(grown.len() == max + 1);
            assert(ring_append(f, s.last(), max) == grown.skip(1));
            assert(grown.skip(1) =~= s.skip(s.len() - max));
        }
    }
}

/// Echo suppression: whatever the message buffer holds, the snapshot a
/// session reads contains no message of its own.
pub proof fn lemma_echo_suppression(messages: Seq<BroadcastMessage>, session_id: u32)
    ensures
        forall|i: int|
            0 <= i < messages.filter(not_from(session_id)).len() ==> (
            #[trigger] messages.filter(not_from(session_id))[i]).session_id != session_id,
{
    assert forall|i: int|
        0 <= i < messages.filter(not_from(session_id)).len() implies (
    #[trigger] messages.filter(not_from(session_id))[i]).session_id != session_id by {
        messages.lemma_filter_pred(not_from(session_id), i);
    }
}

/// Activity from a single session never conflicts with itself: however
/// many records one session files, the distinct-session count stays at
/// one, so no conflict is detected.
pub proof fn lemma_single_session_no_conflict(entries: Seq<FileActivity>, session_id: u32)
    requires
        forall|i: int| 0 <= i < entries.len() ==> (#[trigger] entries[i]).session_id == session_id,
    ensures
        session_ids_of(entries).len() <= 1,
        forall|cs: Seq<FileConflict>, p: Seq<char>|
            #[trigger] conflict_list_ok(cs, p, entries) ==> cs.len() == 0,
{
    broadcast use vstd::seq_lib::seq_to_set_is_finite;

    let ids = entries.map_values(|a: FileActivity| a.session_id);
    let bound = Set::empty().insert(session_id);
    assert forall|y: u32| session_ids_of(entries).contains(y) implies bound.contains(y) by {
        let k = choose|k: int| 0 <= k < ids.len() && ids[k] == y;
        assert(entries[k].session_id == session_id);
    }
    vstd::set_lib::lemma_len_subset(session_ids_of(entries), bound);
}

/// Pruning keeps only fresh records: a record whose timestamp parses to
/// an instant TTL seconds or more before `now` is not among the records
/// that survive a prune at `now`.
pub proof fn lemma_ttl_excludes_stale(entries: Seq<FileActivity>, now: i64)
    ensures
        forall|i: int|
            0 <= i < entries.filter(fresh_at(now)).len() ==> activity_fresh(
                #[trigger] entries.filter(fresh_at(now))[i],
                now,
            ),
        forall|a: FileActivity|
            entries.filter(fresh_at(now)).contains(a) ==> activity_fresh(a, now),
{
    assert forall|i: int|
        0 <= i < entries.filter(fresh_at(now)).len() implies activity_fresh(
        #[trigger] entries.filter(fresh_at(now))[i],
        now,
    ) by {
        entries.lemma_filter_pred(fresh_at(now), i);
    }
}

} // verus!
