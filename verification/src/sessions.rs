use vstd::prelude::*;
use vstd::string::StringExecFns;
use crate::ai::AiSessionSummary;
use crate::assets::{lines_of, split_lines};
use crate::text::{chars_of, has_substring, is_blank, is_blank_str, str_contains, string_of, trim_str, trimmed};
use crate::toml_tree::str_eq;

verus! {

/// The title of a session created without one.
pub open spec fn untitled() -> Seq<char> {
    "New Session"@
}

/// The title of a new session: the given title trimmed, unless absent or
/// blank.
pub fn new_session_title(title: Option<String>) -> (r: String)
    ensures
        r@ == match title {
            Some(t) => if is_blank(t@) {
                untitled()
            } else {
                trimmed(t@)
            },
            None => untitled(),
        },
{
    match title {
        Some(t) => if is_blank_str(t.as_str()) {
            String::from_str("New Session")
        } else {
            trim_str(t.as_str())
        },
        None => String::from_str("New Session"),
    }
}

/// The id of a session created at `now_ms`.
pub fn session_id_at(now_ms: u64) -> (r: String)
    ensures
        r@ == "session-"@ + crate::ai::decimal(now_ms as nat),
{
    String::from_str("session-").concat(crate::ai::decimal_text(now_ms).as_str())
}

/// The title a session takes from its first message: only an untitled
/// session takes one, from a message that is not blank: its first 28
/// characters once trimmed, with `...` when it is longer.
pub open spec fn promoted_title(title: Seq<char>, text: Seq<char>) -> Option<Seq<char>> {
    if title != untitled() || is_blank(text) {
        None
    } else if trimmed(text).len() > 28 {
        Some(trimmed(text).take(28) + "..."@)
    } else {
        Some(trimmed(text))
    }
}

/// The title a session takes from a message, if it takes one.
pub fn maybe_promote_title(title: &str, text: &str) -> (r: Option<String>)
    ensures
        crate::migration::text_view(r) == promoted_title(title@, text@),
{
    if !str_eq(title, "New Session") || is_blank_str(text) {
        return None;
    }
    let t = chars_of(trim_str(text).as_str());
    if t.len() > 28 {
        let head = crate::text::slice_chars(&t, 0, 28);
        assert(head@ == t@.take(28));
        Some(string_of(&head).concat("..."))
    } else {
        Some(string_of(&t))
    }
}

/// Whether a session id is safe as a directory name: not blank once
/// trimmed, without `..`, `/` or `\`.
pub open spec fn valid_session_id(id: Seq<char>) -> bool {
    let t = trimmed(id);
    &&& t.len() > 0
    &&& !has_substring(t, ".."@)
    &&& !has_substring(t, "/"@)
    &&& !has_substring(t, "\\"@)
}

/// The trimmed session id, or the message refusing it.
pub fn validate_session_id(session_id: &str) -> (r: Result<String, String>)
    ensures
        match r {
            Ok(id) => valid_session_id(session_id@) && id@ == trimmed(session_id@),
            Err(m) => !valid_session_id(session_id@) && m@ == "Invalid AI session ID."@,
        },
{
    let t = trim_str(session_id);
    let s = t.as_str();
    if s.is_empty() || str_contains(s, "..") || str_contains(s, "/") || str_contains(s, "\\") {
        return Err(String::from_str("Invalid AI session ID."));
    }
    Ok(t)
}

/// The message for a session that does not exist.
pub fn session_not_found_message(session_id: &str) -> (r: String)
    ensures
        r@ == "AI session '"@ + session_id@ + "' was not found."@,
{
    String::from_str("AI session '").concat(session_id).concat("' was not found.")
}

/// The number of lines of a text that are not blank.
pub open spec fn nonblank_count(lines: Seq<Seq<char>>) -> nat
    decreases lines.len(),
{
    if lines.len() == 0 {
        0
    } else {
        nonblank_count(lines.drop_last()) + if is_blank(lines.last()) {
            0nat
        } else {
            1nat
        }
    }
}

/// The lines of an event log that hold events: those that are not blank.
pub open spec fn nonblank_lines(lines: Seq<Seq<char>>) -> Seq<Seq<char>>
    decreases lines.len(),
{
    if lines.len() == 0 {
        Seq::empty()
    } else {
        let rest = nonblank_lines(lines.drop_last());
        if is_blank(lines.last()) {
            rest
        } else {
            rest.push(lines.last())
        }
    }
}

/// The lines of an event log that hold events, in order.
pub fn event_lines(content: &str) -> (r: Vec<String>)
    ensures
        r@.map_values(|s: String| s@) == nonblank_lines(lines_of(content@)),
{
    let lines = split_lines(&chars_of(content));
    let ghost lv = lines.deep_view();
    let mut out: Vec<String> = Vec::new();
    let n = lines.len();
    let mut i: usize = 0;
    while i < n
        invariant
            n == lines@.len(),
            lv == lines.deep_view(),
            i <= n,
            out@.map_values(|s: String| s@) == nonblank_lines(lv.take(i as int)),
        decreases n - i,
    {
        assert(lv.take(i as int + 1).drop_last() == lv.take(i as int));
        assert(lv.take(i as int + 1).last() == lines@[i as int]@);
        let line = string_of(&lines[i]);
        if !is_blank_str(line.as_str()) {
            let ghost before = out@.map_values(|s: String| s@);
            out.push(line);
            assert(out@.map_values(|s: String| s@) =~= before.push(lines@[i as int]@));
        }
        i += 1;
    }
    assert(lv.take(n as int) == lv);
    out
}

/// The number of events of an event log: its lines that are not blank.
pub fn count_events(content: &str) -> (r: usize)
    ensures
        r == nonblank_count(lines_of(content@)),
{
    let lines = split_lines(&chars_of(content));
    let ghost lv = lines.deep_view();
    let mut count: usize = 0;
    let n = lines.len();
    let mut i: usize = 0;
    while i < n
        invariant
            n == lines@.len(),
            lv == lines.deep_view(),
            i <= n,
            count <= i,
            count == nonblank_count(lv.take(i as int)),
        decreases n - i,
    {
        assert(lv.take(i as int + 1).drop_last() == lv.take(i as int));
        assert(lv.take(i as int + 1).last() == lines@[i as int]@);
        let line = string_of(&lines[i]);
        if !is_blank_str(line.as_str()) {
            count += 1;
        }
        i += 1;
    }
    assert(lv.take(n as int) == lv);
    count
}

/// `s` with `x` placed after every entry updated no earlier than it.
pub open spec fn insert_by_recency(s: Seq<AiSessionSummary>, x: AiSessionSummary) -> Seq<AiSessionSummary>
    decreases s.len(),
{
    if s.len() == 0 {
        seq![x]
    } else if s.last().updated_at_ms < x.updated_at_ms {
        insert_by_recency(s.drop_last(), x).push(s.last())
    } else {
        s.push(x)
    }
}

/// Sessions ordered by update time, newest first; sessions updated at the
/// same time keep their order.
pub open spec fn by_recency(s: Seq<AiSessionSummary>) -> Seq<AiSessionSummary>
    decreases s.len(),
{
    if s.len() == 0 {
        Seq::empty()
    } else {
        insert_by_recency(by_recency(s.drop_last()), s.last())
    }
}

fn insert_session(sorted: &mut Vec<AiSessionSummary>, x: AiSessionSummary)
    ensures
        final(sorted)@ == insert_by_recency(old(sorted)@, x),
{
    let ghost orig = sorted@;
    let mut tail: Vec<AiSessionSummary> = Vec::new();
    while sorted.len() > 0 && sorted[sorted.len() - 1].updated_at_ms < x.updated_at_ms
        invariant
            insert_by_recency(orig, x) == insert_by_recency(sorted@, x) + tail@.reverse(),
        decreases sorted@.len(),
    {
        let ghost before = sorted@;
        let last = sorted.pop().unwrap();
        assert(sorted@ == before.drop_last());
        let ghost t_before = tail@;
        tail.push(last);
        assert(tail@.reverse() =~= seq![last] + t_before.reverse());
        assert(insert_by_recency(before, x) == insert_by_recency(sorted@, x).push(last));
        assert(insert_by_recency(sorted@, x).push(last) + t_before.reverse() =~= insert_by_recency(
            sorted@,
            x,
        ) + (seq![last] + t_before.reverse()));
    }
    assert(insert_by_recency(sorted@, x) == sorted@.push(x));
    sorted.push(x);
    while tail.len() > 0
        invariant
            insert_by_recency(orig, x) == sorted@ + tail@.reverse(),
        decreases tail@.len(),
    {
        let ghost t_before = tail@;
        let item = tail.pop().unwrap();
        assert(tail@ == t_before.drop_last());
        assert(t_before.reverse() =~= seq![item] + tail@.reverse());
        let ghost s_before = sorted@;
        sorted.push(item);
        assert(s_before + (seq![item] + tail@.reverse()) =~= sorted@ + tail@.reverse());
    }
    assert(sorted@ + tail@.reverse() =~= sorted@);
}

/// Orders sessions by update time, newest first; sessions updated at the
/// same time keep their order.
pub fn sort_sessions(sessions: Vec<AiSessionSummary>) -> (r: Vec<AiSessionSummary>)
    ensures
        r@ == by_recency(sessions@),
{
    let mut sorted: Vec<AiSessionSummary> = Vec::new();
    let mut rest = sessions;
    let ghost orig = rest@;
    let mut taken: Vec<AiSessionSummary> = Vec::new();
    let n = rest.len();
    let mut i: usize = 0;
    while rest.len() > 0
        invariant
            orig.len() == n,
            i + rest@.len() == n,
            rest@ == orig.skip(i as int),
            sorted@ == by_recency(orig.take(i as int)),
        decreases rest@.len(),
    {
        let ghost before = rest@;
        let x = rest.remove(0);
        assert(x == orig[i as int]);
        assert(rest@ =~= orig.skip(i as int + 1));
        assert(orig.take(i as int + 1).drop_last() == orig.take(i as int));
        assert(orig.take(i as int + 1).last() == x);
        insert_session(&mut sorted, x);
        i += 1;
    }
    assert(orig.take(n as int) == orig);
    sorted
}


/// Whether sessions are ordered newest first.
pub open spec fn newest_first(s: Seq<AiSessionSummary>) -> bool {
    forall|i: int, j: int| 0 <= i < j < s.len() ==> s[i].updated_at_ms >= s[j].updated_at_ms
}

proof fn lemma_insert_keeps_order(s: Seq<AiSessionSummary>, x: AiSessionSummary)
    requires
        newest_first(s),
    ensures
        newest_first(insert_by_recency(s, x)),
        insert_by_recency(s, x).to_multiset() == s.to_multiset().insert(x),
        insert_by_recency(s, x).len() == s.len() + 1,
        forall|i: int|
            0 <= i < insert_by_recency(s, x).len() ==> (#[trigger] insert_by_recency(s, x)[i] == x
                || s.contains(insert_by_recency(s, x)[i])),
    decreases s.len(),
{
    broadcast use vstd::seq_lib::group_seq_properties;
    if s.len() == 0 {
        assert(seq![x].to_multiset() =~= Seq::<AiSessionSummary>::empty().to_multiset().insert(x));
    } else if s.last().updated_at_ms < x.updated_at_ms {
        let d = s.drop_last();
        assert(newest_first(d));
        lemma_insert_keeps_order(d, x);
        let r0 = insert_by_recency(d, x);
        let r = r0.push(s.last());
        assert forall|i: int, j: int| 0 <= i < j < r.len() implies r[i].updated_at_ms >= r[j].updated_at_ms by {
            if j == r.len() - 1 {
                assert(r[j] == s.last());
                assert(r[i] == r0[i]);
                if r0[i] != x {
                    assert(d.contains(r0[i]));
                    let k = choose|k: int| 0 <= k < d.len() && d[k] == r0[i];
                    assert(s[k] == d[k]);
                }
            }
        }
        assert(s == d.push(s.last()));
        assert forall|i: int| 0 <= i < r.len() implies (#[trigger] r[i] == x || s.contains(r[i])) by {
            if i < r0.len() {
                assert(r[i] == r0[i]);
                if r0[i] != x {
                    let k = choose|k: int| 0 <= k < d.len() && d[k] == r0[i];
                    assert(s[k] == d[k]);
                }
            } else {
                assert(s[s.len() - 1] == s.last());
            }
        }
    } else {
        let r = s.push(x);
        assert forall|i: int, j: int| 0 <= i < j < r.len() implies r[i].updated_at_ms >= r[j].updated_at_ms by {
            if j == r.len() - 1 {
                assert(r[i] == s[i]);
                if i < s.len() - 1 {
                    assert(s[i].updated_at_ms >= s[s.len() - 1].updated_at_ms);
                }
            }
        }
        assert forall|i: int| 0 <= i < r.len() implies (#[trigger] r[i] == x || s.contains(r[i])) by {
            if i < s.len() {
                assert(r[i] == s[i]);
            }
        }
    }
}

/// Sorting by recency orders the sessions newest first and neither adds
/// nor drops any.
pub proof fn lemma_by_recency_sorted(s: Seq<AiSessionSummary>)
    ensures
        newest_first(by_recency(s)),
        by_recency(s).to_multiset() == s.to_multiset(),
    decreases s.len(),
{
    broadcast use vstd::seq_lib::group_seq_properties;
    if s.len() > 0 {
        lemma_by_recency_sorted(s.drop_last());
        lemma_insert_keeps_order(by_recency(s.drop_last()), s.last());
        assert(s == s.drop_last().push(s.last()));
    } else {
        assert(by_recency(s).to_multiset() =~= s.to_multiset());
    }
}

} // verus!
