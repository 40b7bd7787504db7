//! Path normalization that never touches the filesystem.
//!
//! Resolves `.` and `..` segments, collapses repeated and trailing
//! separators, and roots relative paths under a caller-supplied working
//! directory — all purely on the path text, so no permission prompt or
//! symlink resolution is ever triggered.

use vstd::prelude::*;

use crate::strutil::{push_char, str_eq};

verus! {

/// The views of a list of owned segments.
pub open spec fn views_of(v: Seq<String>) -> Seq<Seq<char>> {
    v.map_values(|x: String| x@)
}

/// One segment lands on the resolved stack: empty and `.` segments
/// vanish, `..` pops the last segment unless the stack is already at the
/// root, anything else is kept.
pub open spec fn apply_segment(stack: Seq<Seq<char>>, seg: Seq<char>) -> Seq<Seq<char>> {
    if seg.len() == 0 || seg == "."@ {
        stack
    } else if seg == ".."@ {
        if stack.len() > 0 {
            stack.drop_last()
        } else {
            stack
        }
    } else {
        stack.push(seg)
    }
}

/// The resolver's state after reading the first `i` characters: the
/// segments resolved so far and the partial segment being read. A `/`
/// closes the partial segment and applies it.
pub open spec fn scan_state(s: Seq<char>, i: int) -> (Seq<Seq<char>>, Seq<char>)
    decreases i,
{
    if i <= 0 {
        (Seq::empty(), Seq::empty())
    } else {
        let (stack, cur) = scan_state(s, i - 1);
        if s[i - 1] == '/' {
            (apply_segment(stack, cur), Seq::empty())
        } else {
            (stack, cur.push(s[i - 1]))
        }
    }
}

/// The resolved segments of a whole path: every character read, the last
/// partial segment applied.
pub open spec fn resolved_segments(s: Seq<char>) -> Seq<Seq<char>> {
    let (stack, cur) = scan_state(s, s.len() as int);
    apply_segment(stack, cur)
}

/// Segments joined below the root: a separator before each.
pub open spec fn join_rooted(segs: Seq<Seq<char>>) -> Seq<char>
    decreases segs.len(),
{
    if segs.len() == 0 {
        Seq::empty()
    } else {
        join_rooted(segs.drop_last()) + seq!['/'] + segs.last()
    }
}

/// The normalized form of a rooted path: its resolved segments joined,
/// or the bare root when none are left.
pub open spec fn normalized(s: Seq<char>) -> Seq<char> {
    let segs = resolved_segments(s);
    if segs.len() == 0 {
        seq!['/']
    } else {
        join_rooted(segs)
    }
}

/// A path as rooted text: an absolute path stands as it is, a relative
/// one is read below the working directory.
pub open spec fn rooted(s: Seq<char>, cwd: Seq<char>) -> Seq<char> {
    if s.len() > 0 && s[0] == '/' {
        s
    } else {
        cwd + seq!['/'] + s
    }
}

fn apply_exec(stack: &mut Vec<String>, seg: String)
    ensures
        views_of(final(stack)@) == apply_segment(views_of(old(stack)@), seg@),
{
    proof {
        reveal_strlit(".");
        reveal_strlit("..");
    }
    if seg.as_str().unicode_len() == 0 || str_eq(seg.as_str(), ".") {
        proof {
            assert(views_of(stack@) =~= apply_segment(views_of(stack@), seg@));
        }
    } else if str_eq(seg.as_str(), "..") {
        if stack.len() > 0 {
            let ghost pre = stack@;
            stack.pop();
            proof {
                assert(views_of(stack@) =~= views_of(pre).drop_last());
            }
        } else {
            proof {
                assert(views_of(stack@).len() == 0);
            }
        }
    } else {
        let ghost pre = stack@;
        stack.push(seg);
        proof {
            assert(views_of(stack@) =~= views_of(pre).push(stack@.last()@));
        }
    }
}

fn normalize_rooted(s: &str) -> (r: String)
    ensures
        r@ == normalized(s@),
{
    let n = s.unicode_len();
    let mut stack: Vec<String> = Vec::new();
    let mut cur = String::new();
    let mut i: usize = 0;
    while i < n
        invariant
            n == s@.len(),
            i <= n,
            views_of(stack@) == scan_state(s@, i as int).0,
            cur@ == scan_state(s@, i as int).1,
        decreases n - i,
    {
        let c = s.get_char(i);
        if c == '/' {
            apply_exec(&mut stack, cur);
            cur = String::new();
        } else {
            push_char(&mut cur, c);
        }
        i = i + 1;
    }
    apply_exec(&mut stack, cur);
    let ghost segs = resolved_segments(s@);
    proof {
        assert(views_of(stack@) == segs);
    }
    if stack.len() == 0 {
        let root = "/".to_owned();
        proof {
            reveal_strlit("/");
            assert(root@ =~= seq!['/']);
        }
        return root;
    }
    let mut out = String::new();
    proof {
        assert(out@ =~= join_rooted(segs.take(0)));
    }
    let mut j: usize = 0;
    while j < stack.len()
        invariant
            views_of(stack@) == segs,
            j <= stack@.len(),
            out@ == join_rooted(segs.take(j as int)),
        decreases stack@.len() - j,
    {
        out.append("/");
        out.append(stack[j].as_str());
        proof {
            reveal_strlit("/");
            assert("/"@ =~= seq!['/']);
            let t1 = segs.take(j + 1);
            assert(t1.drop_last() =~= segs.take(j as int));
            assert(t1.last() == segs[j as int]);
            assert(segs[j as int] == stack@[j as int]@);
            assert(out@ =~= join_rooted(t1));
        }
        j = j + 1;
    }
    proof {
        assert(segs.take(segs.len() as int) =~= segs);
        assert(stack@.len() == segs.len());
    }
    out
}

/// Normalizes a path against a working directory, purely on the text:
/// a relative path is first read below the directory, then `.` and `..`
/// segments are resolved and repeated and trailing separators collapse.
pub fn normalize_path_from(path: &str, cwd: &str) -> (r: String)
    ensures
        r@ == normalized(rooted(path@, cwd@)),
{
    if path.unicode_len() > 0 && path.get_char(0) == '/' {
        normalize_rooted(path)
    } else {
        let mut joined = String::new();
        joined.append(cwd);
        joined.append("/");
        joined.append(path);
        proof {
            reveal_strlit("/");
            assert("/"@ =~= seq!['/']);
            assert(joined@ =~= rooted(path@, cwd@));
        }
        normalize_rooted(joined.as_str())
    }
}

/// Normalizes a path string without touching the filesystem: resolves
/// `.` and `..`, collapses separators, and reads a relative path as
/// rooted. A caller that wants relative paths under its own working
/// directory uses `normalize_path_from`.
pub fn normalize_path(path: &str) -> (r: String)
    ensures
        r@ == normalized(rooted(path@, seq!['/'])),
{
    let mut root = String::new();
    root.append("/");
    proof {
        reveal_strlit("/");
        assert(root@ =~= seq!['/']);
    }
    normalize_path_from(path, root.as_str())
}

// ---------------------------------------------------------------------------
// Idempotence
// ---------------------------------------------------------------------------

/// A segment as the resolver leaves it on the stack: nonempty, free of
/// separators, and neither of the special names.
pub open spec fn seg_ok(seg: Seq<char>) -> bool {
    seg.len() > 0 && seg != "."@ && seg != ".."@ && forall|k: int|
        0 <= k < seg.len() ==> seg[k] != '/'
}

/// Every segment of the list is well formed.
pub open spec fn all_segs_ok(segs: Seq<Seq<char>>) -> bool {
    forall|m: int| 0 <= m < segs.len() ==> seg_ok(#[trigger] segs[m])
}

proof fn lemma_apply_ok(stack: Seq<Seq<char>>, cur: Seq<char>)
    requires
        all_segs_ok(stack),
        forall|k: int| 0 <= k < cur.len() ==> cur[k] != '/',
    ensures
        all_segs_ok(apply_segment(stack, cur)),
{
    let post = apply_segment(stack, cur);
    assert forall|m: int| 0 <= m < post.len() implies seg_ok(#[trigger] post[m]) by {
        if cur.len() == 0 || cur == "."@ {
            assert(post[m] == stack[m]);
        } else if cur == ".."@ {
            assert(post[m] == stack[m]);
        } else {
            if m < stack.len() {
                assert(post[m] == stack[m]);
            } else {
                assert(post[m] == cur);
            }
        }
    }
}

proof fn lemma_scan_wf(s: Seq<char>, i: int)
    requires
        0 <= i <= s.len(),
    ensures
        all_segs_ok(scan_state(s, i).0),
        forall|k: int| 0 <= k < scan_state(s, i).1.len() ==> scan_state(s, i).1[k] != '/',
    decreases i,
{
    if i > 0 {
        lemma_scan_wf(s, i - 1);
        let stack = scan_state(s, i - 1).0;
        let cur = scan_state(s, i - 1).1;
        if s[i - 1] == '/' {
            lemma_apply_ok(stack, cur);
        }
    }
}

/// The resolver never leaves an empty, `.`, `..` or separator-bearing
/// segment on the stack.
proof fn lemma_resolved_ok(s: Seq<char>)
    ensures
        all_segs_ok(resolved_segments(s)),
{
    lemma_scan_wf(s, s.len() as int);
    lemma_apply_ok(scan_state(s, s.len() as int).0, scan_state(s, s.len() as int).1);
}

proof fn lemma_scan_prefix(s1: Seq<char>, s2: Seq<char>, i: int)
    requires
        0 <= i <= s1.len(),
        i <= s2.len(),
        forall|k: int| 0 <= k < i ==> s1[k] == s2[k],
    ensures
        scan_state(s1, i) == scan_state(s2, i),
    decreases i,
{
    if i > 0 {
        lemma_scan_prefix(s1, s2, i - 1);
    }
}

proof fn lemma_scan_run(s: Seq<char>, base: int, k: int)
    requires
        0 <= base,
        0 <= k,
        base + k <= s.len(),
        forall|m: int| base <= m < base + k ==> s[m] != '/',
    ensures
        scan_state(s, base + k).0 == scan_state(s, base).0,
        scan_state(s, base + k).1 == scan_state(s, base).1 + s.subrange(base, base + k),
    decreases k,
{
    if k == 0 {
        assert(scan_state(s, base).1 + s.subrange(base, base) =~= scan_state(s, base).1);
    } else {
        lemma_scan_run(s, base, k - 1);
        assert(scan_state(s, base).1 + s.subrange(base, base + k) =~= (scan_state(s, base).1
            + s.subrange(base, base + k - 1)).push(s[base + k - 1]));
    }
}

proof fn lemma_join_head(segs: Seq<Seq<char>>)
    requires
        segs.len() > 0,
    ensures
        join_rooted(segs).len() > 0,
        join_rooted(segs)[0] == '/',
    decreases segs.len(),
{
    if segs.len() == 1 {
        assert(join_rooted(segs.drop_last()) =~= Seq::<char>::empty());
        assert(join_rooted(segs)[0] == '/');
    } else {
        lemma_join_head(segs.drop_last());
        assert(join_rooted(segs)[0] == join_rooted(segs.drop_last())[0]);
    }
}

proof fn lemma_scan_join(segs: Seq<Seq<char>>)
    requires
        segs.len() > 0,
        all_segs_ok(segs),
    ensures
        scan_state(join_rooted(segs), join_rooted(segs).len() as int).0 == segs.drop_last(),
        scan_state(join_rooted(segs), join_rooted(segs).len() as int).1 == segs.last(),
    decreases segs.len(),
{
    let j = join_rooted(segs);
    let last = segs.last();
    let dl = segs.drop_last();
    let jd = join_rooted(dl);
    assert(seg_ok(last));
    if segs.len() == 1 {
        assert(jd =~= Seq::<char>::empty());
        assert(j =~= seq!['/'] + last);
        assert(j[0] == '/');
        assert(scan_state(j, 0).0 =~= Seq::<Seq<char>>::empty());
        assert(scan_state(j, 0).1 =~= Seq::<char>::empty());
        assert(scan_state(j, 1).0 =~= Seq::<Seq<char>>::empty());
        assert(scan_state(j, 1).1 =~= Seq::<char>::empty());
        lemma_scan_run(j, 1, last.len() as int);
        assert(scan_state(j, j.len() as int).0 =~= dl);
        assert(scan_state(j, j.len() as int).1 =~= Seq::<char>::empty() + j.subrange(
            1,
            j.len() as int,
        ));
        assert(Seq::<char>::empty() + j.subrange(1, j.len() as int) =~= last);
    } else {
        lemma_scan_join(dl);
        assert(all_segs_ok(dl));
        lemma_scan_prefix(j, jd, jd.len() as int);
        assert(j[jd.len() as int] == '/');
        assert(scan_state(j, jd.len() as int + 1).0 == apply_segment(dl.drop_last(), dl.last()));
        assert(seg_ok(dl.last()));
        assert(apply_segment(dl.drop_last(), dl.last()) == dl.drop_last().push(dl.last()));
        assert(dl.drop_last().push(dl.last()) =~= dl);
        lemma_scan_run(j, jd.len() as int + 1, last.len() as int);
        assert(scan_state(j, j.len() as int).0 =~= dl);
        assert(scan_state(j, j.len() as int).1 =~= Seq::<char>::empty() + j.subrange(
            jd.len() as int + 1,
            j.len() as int,
        ));
        assert(Seq::<char>::empty() + j.subrange(jd.len() as int + 1, j.len() as int) =~= last);
    }
}

/// A normalized path is absolute: it begins with the separator, so
/// rooting it under any working directory leaves it as it is.
pub proof fn lemma_normalized_absolute(s: Seq<char>, cwd: Seq<char>)
    ensures
        normalized(s).len() > 0,
        normalized(s)[0] == '/',
        rooted(normalized(s), cwd) == normalized(s),
{
    let segs = resolved_segments(s);
    if segs.len() > 0 {
        lemma_join_head(segs);
    }
}

/// Normalization is idempotent: the normalized form of a path is its own
/// normalized form, so resolving it a second time changes nothing.
pub proof fn lemma_normalized_idempotent(s: Seq<char>)
    ensures
        normalized(normalized(s)) == normalized(s),
{
    let segs = resolved_segments(s);
    lemma_resolved_ok(s);
    if segs.len() == 0 {
        let r = seq!['/'];
        assert(r[0] == '/');
        assert(scan_state(r, 0).0 =~= Seq::<Seq<char>>::empty());
        assert(scan_state(r, 0).1 =~= Seq::<char>::empty());
        assert(scan_state(r, 1).0 =~= Seq::<Seq<char>>::empty());
        assert(scan_state(r, 1).1 =~= Seq::<char>::empty());
        assert(resolved_segments(r) =~= Seq::<Seq<char>>::empty());
        assert(normalized(r) =~= r);
    } else {
        let j = join_rooted(segs);
        lemma_scan_join(segs);
        assert(seg_ok(segs.last()));
        assert(resolved_segments(j) == apply_segment(segs.drop_last(), segs.last()));
        assert(apply_segment(segs.drop_last(), segs.last()) =~= segs);
        lemma_join_head(segs);
    }
}

/// What `normalize_path` returns is a fixed point: normalizing its own
/// result — rooting step included — gives the same text back.
pub proof fn lemma_normalize_path_idempotent(p: Seq<char>)
    ensures
        normalized(rooted(normalized(rooted(p, seq!['/'])), seq!['/'])) == normalized(
            rooted(p, seq!['/']),
        ),
{
    lemma_normalized_absolute(rooted(p, seq!['/']), seq!['/']);
    lemma_normalized_idempotent(rooted(p, seq!['/']));
}

} // verus!
