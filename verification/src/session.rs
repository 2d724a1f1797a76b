//! The event model and the session accumulator: the in-memory aggregate of
//! everything observed during one invocation, folded event by event.

use vstd::prelude::*;
use vstd::string::*;

use crate::classify::{
    categorize_tool, classifies, classify_prompt, lower_of, spec_categorize_tool, spec_issue,
    Accomplishment, Category,
};
use crate::text::{spec_truncate, str_eq, strs_view, truncate_chars};

verus! {

/// The kind of one normalized input record.
#[derive(Clone, Copy, Debug, PartialEq, Eq, Structural)]
pub enum EventKind {
    SessionStart,
    UserPrompt,
    Message,
    ToolCall,
    ToolResult,
    Error,
    SessionEnd,
    Other,
}

/// The event kind encoded by an `event_type` tag.
pub open spec fn spec_kind_of(s: Seq<char>) -> EventKind {
    if s == "session_start"@ {
        EventKind::SessionStart
    } else if s == "user_prompt"@ {
        EventKind::UserPrompt
    } else if s == "message"@ {
        EventKind::Message
    } else if s == "tool_call"@ {
        EventKind::ToolCall
    } else if s == "tool_result"@ {
        EventKind::ToolResult
    } else if s == "error"@ {
        EventKind::Error
    } else if s == "session_end"@ {
        EventKind::SessionEnd
    } else {
        EventKind::Other
    }
}

/// Maps an `event_type` tag to its kind; unrecognized tags are `Other`.
pub fn kind_of(s: &str) -> (r: EventKind)
    ensures
        r == spec_kind_of(s@),
{
    if str_eq(s, "session_start") {
        EventKind::SessionStart
    } else if str_eq(s, "user_prompt") {
        EventKind::UserPrompt
    } else if str_eq(s, "message") {
        EventKind::Message
    } else if str_eq(s, "tool_call") {
        EventKind::ToolCall
    } else if str_eq(s, "tool_result") {
        EventKind::ToolResult
    } else if str_eq(s, "error") {
        EventKind::Error
    } else if str_eq(s, "session_end") {
        EventKind::SessionEnd
    } else {
        EventKind::Other
    }
}

/// One tool invocation carried by an event. Of the tool parameters the core
/// reads only the `file_path` entry, so the record holds it as a plain value.
pub struct ToolCallRecord {
    pub tool_name: String,
    pub file_path: Option<String>,
    pub result: Option<String>,
    pub duration_ms: Option<u64>,
    pub success: Option<bool>,
}

/// One normalized unit of observed activity. Unknown or absent fields are
/// valid; classification degrades gracefully when fields are missing.
pub struct Event {
    pub kind: EventKind,
    pub timestamp: Option<String>,
    pub session_id: Option<String>,
    pub user_prompt: Option<String>,
    pub assistant_response: Option<String>,
    pub tool_calls: Option<Vec<ToolCallRecord>>,
    pub duration_ms: Option<u64>,
    pub error: Option<String>,
}

impl Event {
    /// Wraps a line that did not parse as the structured format: the raw text
    /// becomes the prompt of a synthetic message-kind event stamped with the
    /// current time, so no input line is silently lost.
    pub fn fallback(line: String, now: String) -> (e: Event)
        ensures
            e.kind == EventKind::Message,
            e.timestamp matches Some(t) && t@ == now@,
            e.user_prompt matches Some(p) && p@ == line@,
            e.session_id is None,
            e.assistant_response is None,
            e.tool_calls is None,
            e.duration_ms is None,
            e.error is None,
    {
        Event {
            kind: EventKind::Message,
            timestamp: Some(now),
            session_id: None,
            user_prompt: Some(line),
            assistant_response: None,
            tool_calls: None,
            duration_ms: None,
            error: None,
        }
    }
}

/// One row of the cumulative tool-usage mapping.
pub struct ToolUsage {
    pub tool_name: String,
    pub count: u32,
}

/// Tool names are pairwise distinct.
pub open spec fn unique_tools(tu: Seq<ToolUsage>) -> bool {
    forall|i: int, j: int|
        0 <= i < j < tu.len() ==> (#[trigger] tu[i].tool_name@) != (#[trigger] tu[j].tool_name@)
}

/// The count recorded for `name`, 0 when absent.
pub open spec fn spec_tool_count(tu: Seq<ToolUsage>, name: Seq<char>) -> u32
    decreases tu.len(),
{
    if tu.len() == 0 {
        0
    } else if tu[0].tool_name@ == name {
        tu[0].count
    } else {
        spec_tool_count(tu.drop_first(), name)
    }
}

/// Addition on `u64` that stops at the top instead of wrapping.
pub open spec fn sat_add_u64(a: u64, b: u64) -> u64 {
    if a + b > u64::MAX {
        u64::MAX
    } else {
        (a + b) as u64
    }
}

/// Increment on `u32` that stops at the top instead of wrapping.
pub open spec fn sat_inc_u32(a: u32) -> u32 {
    if a < u32::MAX {
        (a + 1) as u32
    } else {
        a
    }
}

/// The tool-call records carried by an event, empty when absent.
pub open spec fn recs_of(e: Event) -> Seq<ToolCallRecord> {
    match e.tool_calls {
        Some(v) => v@,
        None => Seq::empty(),
    }
}

/// How many records in `recs` name the tool `n`.
pub open spec fn occ_tool(recs: Seq<ToolCallRecord>, n: Seq<char>) -> int
    decreases recs.len(),
{
    if recs.len() == 0 {
        0
    } else {
        occ_tool(recs.drop_last(), n) + if recs.last().tool_name@ == n {
            1int
        } else {
            0int
        }
    }
}

proof fn lemma_occ_take_le(recs: Seq<ToolCallRecord>, n: Seq<char>, j: int)
    requires
        0 <= j <= recs.len(),
    ensures
        occ_tool(recs.take(j), n) <= occ_tool(recs, n),
    decreases recs.len(),
{
    if j < recs.len() {
        assert(recs.drop_last().take(j) =~= recs.take(j));
        lemma_occ_take_le(recs.drop_last(), n, j);
    } else {
        assert(recs.take(j) =~= recs);
    }
}

/// The file paths named by the records, in order.
pub open spec fn rec_paths(recs: Seq<ToolCallRecord>) -> Seq<Seq<char>>
    decreases recs.len(),
{
    if recs.len() == 0 {
        Seq::empty()
    } else {
        rec_paths(recs.drop_last()) + match recs.last().file_path {
            Some(p) => seq![p@],
            None => Seq::empty(),
        }
    }
}

/// The description derived for one tool call.
pub open spec fn spec_tool_desc(r: ToolCallRecord) -> Seq<char> {
    match r.file_path {
        Some(p) => "Modified "@ + p@,
        None => "Used "@ + r.tool_name@ + " tool"@,
    }
}

/// The accomplishment derived for one tool-call record.
pub open spec fn acc_matches_tool(a: Accomplishment, r: ToolCallRecord) -> bool {
    &&& a.category == spec_categorize_tool(r.tool_name@)
    &&& a.description@ == spec_tool_desc(r)
    &&& a.duration_ms == r.duration_ms
    &&& match r.file_path {
        Some(p) => a.files_affected@.len() == 1 && a.files_affected@[0]@ == p@,
        None => a.files_affected@.len() == 0,
    }
}

/// Which persistence step an event asks for.
#[derive(Clone, Copy, Debug, PartialEq, Eq, Structural)]
pub enum SaveAction {
    Incremental,
    Finalize,
}

/// The session accumulator: everything observed so far in this invocation.
pub struct DiarySession {
    /// Set at construction, never mutated.
    pub start_time: String,
    /// Absent until finalization; set at most once.
    pub end_time: Option<String>,
    /// In observation order.
    pub objectives: Vec<String>,
    /// In observation order.
    pub accomplishments: Vec<Accomplishment>,
    /// In observation order.
    pub issues: Vec<String>,
    /// In observation order, not yet deduplicated.
    pub files_modified: Vec<String>,
    /// Cumulative per-tool invocation counts.
    pub tool_usage: Vec<ToolUsage>,
    /// Sum of all event durations observed, in milliseconds.
    pub total_duration_ms: u64,
    /// The opaque handle the persistence layer assigned, cached after the
    /// first write.
    pub handle: Option<i64>,
}

impl DiarySession {
    /// Well-formedness: tool names stay distinct and every accomplishment
    /// carries a non-empty description.
    pub open spec fn wf(self) -> bool {
        &&& unique_tools(self.tool_usage@)
        &&& forall|i: int|
            0 <= i < self.accomplishments@.len()
                ==> (#[trigger] self.accomplishments@[i].description@).len() > 0
    }

    /// A fresh accumulator for an invocation starting at `start_time`.
    pub fn new(start_time: String) -> (s: Self)
        ensures
            s.wf(),
            s.start_time@ == start_time@,
            s.end_time is None,
            s.objectives@.len() == 0,
            s.accomplishments@.len() == 0,
            s.issues@.len() == 0,
            s.files_modified@.len() == 0,
            s.tool_usage@.len() == 0,
            s.total_duration_ms == 0,
            s.handle is None,
    {
        DiarySession {
            start_time,
            end_time: None,
            objectives: Vec::new(),
            accomplishments: Vec::new(),
            issues: Vec::new(),
            files_modified: Vec::new(),
            tool_usage: Vec::new(),
            total_duration_ms: 0,
            handle: None,
        }
    }

    /// Caches the handle the persistence layer assigned on first write.
    pub fn set_handle(&mut self, id: i64)
        requires
            (old(self).handle is None),
        ensures
            final(self).handle == Some(id),
            final(self).start_time == old(self).start_time,
            final(self).end_time == old(self).end_time,
            final(self).objectives == old(self).objectives,
            final(self).accomplishments == old(self).accomplishments,
            final(self).issues == old(self).issues,
            final(self).files_modified == old(self).files_modified,
            final(self).tool_usage == old(self).tool_usage,
            final(self).total_duration_ms == old(self).total_duration_ms,
    {
        self.handle = Some(id);
    }
}

proof fn lemma_tool_count_update(tu: Seq<ToolUsage>, i: int, rec: ToolUsage, n: Seq<char>)
    requires
        0 <= i < tu.len(),
        rec.tool_name@ == tu[i].tool_name@,
        forall|j: int| 0 <= j < i ==> (#[trigger] tu[j].tool_name@) != tu[i].tool_name@,
    ensures
        spec_tool_count(tu.update(i, rec), n) == if n == rec.tool_name@ {
            rec.count
        } else {
            spec_tool_count(tu, n)
        },
    decreases i,
{
    let tu2 = tu.update(i, rec);
    if i == 0 {
        assert(tu2[0] == rec);
        if n != rec.tool_name@ {
            assert(tu2.drop_first() =~= tu.drop_first());
        }
    } else {
        assert(tu2[0] == tu[0]);
        assert(tu[0].tool_name@ != tu[i].tool_name@);
        assert(tu2.drop_first() =~= tu.drop_first().update(i - 1, rec));
        assert(tu.drop_first()[i - 1] == tu[i]);
        assert forall|j: int| 0 <= j < i - 1 implies (#[trigger] tu.drop_first()[j].tool_name@)
            != tu.drop_first()[i - 1].tool_name@ by {
            assert(tu.drop_first()[j] == tu[j + 1]);
            assert(tu[j + 1].tool_name@ != tu[i].tool_name@);
        }
        lemma_tool_count_update(tu.drop_first(), i - 1, rec, n);
        assert(spec_tool_count(tu2, n) == spec_tool_count(tu2.drop_first(), n) || n
            == tu[0].tool_name@);
    }
}

proof fn lemma_tool_count_push(tu: Seq<ToolUsage>, rec: ToolUsage, n: Seq<char>)
    requires
        forall|j: int| 0 <= j < tu.len() ==> (#[trigger] tu[j].tool_name@) != rec.tool_name@,
    ensures
        spec_tool_count(tu.push(rec), n) == if n == rec.tool_name@ {
            rec.count
        } else {
            spec_tool_count(tu, n)
        },
    decreases tu.len(),
{
    let s = tu.push(rec);
    if tu.len() == 0 {
        assert(s[0] == rec);
        if n != rec.tool_name@ {
            assert(s.drop_first() =~= Seq::<ToolUsage>::empty());
            assert(spec_tool_count(s.drop_first(), n) == 0);
        }
    } else {
        assert(s[0] == tu[0]);
        assert(tu[0].tool_name@ != rec.tool_name@);
        assert(s.drop_first() =~= tu.drop_first().push(rec));
        assert forall|j: int| 0 <= j < tu.drop_first().len() implies (#[trigger] tu.drop_first(
        )[j].tool_name@) != rec.tool_name@ by {
            assert(tu.drop_first()[j] == tu[j + 1]);
            assert(tu[j + 1].tool_name@ != rec.tool_name@);
        }
        lemma_tool_count_push(tu.drop_first(), rec, n);
    }
}

/// Adds one invocation of `name` to the usage mapping, saturating at the top.
fn bump_tool(tu: &mut Vec<ToolUsage>, name: &str)
    requires
        unique_tools(old(tu)@),
    ensures
        unique_tools(final(tu)@),
        forall|n: Seq<char>|
            #[trigger] spec_tool_count(final(tu)@, n) == if n == name@ {
                sat_inc_u32(spec_tool_count(old(tu)@, n))
            } else {
                spec_tool_count(old(tu)@, n)
            },
{
    let ghost orig = tu@;
    let mut i: usize = 0;
    while i < tu.len()
        invariant
            tu@ == orig,
            orig == old(tu)@,
            unique_tools(orig),
            i <= tu@.len(),
            forall|j: int| 0 <= j < i ==> (#[trigger] tu@[j].tool_name@) != name@,
        decreases tu@.len() - i,
    {
        if str_eq(tu[i].tool_name.as_str(), name) {
            proof {
                assert(orig[i as int].tool_name@ == name@);
            }
            let rec = tu.remove(i);
            proof {
                assert(rec == orig[i as int]);
            }
            let c = rec.count;
            let nc: u32 = if c < u32::MAX {
                c + 1
            } else {
                c
            };
            let rec2 = ToolUsage { tool_name: rec.tool_name, count: nc };
            proof {
                assert(rec2.tool_name == orig[i as int].tool_name);
                assert(rec2.count == sat_inc_u32(orig[i as int].count));
            }
            tu.insert(i, rec2);
            proof {
                let u = orig.update(i as int, rec2);
                assert(tu@ =~= u);
                lemma_tool_count_at(orig, i as int);
                assert forall|n: Seq<char>|
                    #[trigger] spec_tool_count(tu@, n) == if n == name@ {
                        sat_inc_u32(spec_tool_count(orig, n))
                    } else {
                        spec_tool_count(orig, n)
                    } by {
                    lemma_tool_count_update(orig, i as int, rec2, n);
                }
                assert forall|a: int, b: int| 0 <= a < b < u.len() implies (#[trigger] u[a].tool_name@)
                    != (#[trigger] u[b].tool_name@) by {
                    assert(u[a].tool_name@ == orig[a].tool_name@);
                    assert(u[b].tool_name@ == orig[b].tool_name@);
                }
            }
            return ;
        }
        i += 1;
    }
    let rec = ToolUsage { tool_name: name.to_owned(), count: 1 };
    tu.push(rec);
    proof {
        lemma_tool_count_push(orig, tu@.last(), name@);
        assert forall|n: Seq<char>|
            #[trigger] spec_tool_count(tu@, n) == if n == name@ {
                sat_inc_u32(spec_tool_count(orig, n))
            } else {
                spec_tool_count(orig, n)
            } by {
            lemma_tool_count_push(orig, tu@.last(), n);
            if n == name@ {
                lemma_tool_count_absent(orig, n);
            }
        }
        assert forall|a: int, b: int|
            0 <= a < b < tu@.len() implies (#[trigger] tu@[a].tool_name@)
            != (#[trigger] tu@[b].tool_name@) by {
            if b < tu@.len() - 1 {
            } else {
                assert(tu@[a].tool_name@ == orig[a].tool_name@);
            }
        }
    }
}

/// Adds one invocation per record to the usage mapping.
fn bump_all(tu: &mut Vec<ToolUsage>, recs: &Vec<ToolCallRecord>)
    requires
        unique_tools(old(tu)@),
    ensures
        unique_tools(final(tu)@),
        forall|n: Seq<char>|
            #[trigger] spec_tool_count(final(tu)@, n) >= spec_tool_count(old(tu)@, n),
        forall|n: Seq<char>|
            spec_tool_count(old(tu)@, n) + occ_tool(recs@, n) <= u32::MAX
                ==> #[trigger] spec_tool_count(final(tu)@, n) == spec_tool_count(old(tu)@, n)
                + occ_tool(recs@, n),
{
    let ghost orig = tu@;
    let mut j: usize = 0;
    while j < recs.len()
        invariant
            j <= recs@.len(),
            orig == old(tu)@,
            unique_tools(tu@),
            forall|n: Seq<char>|
                #[trigger] spec_tool_count(tu@, n) >= spec_tool_count(orig, n),
            forall|n: Seq<char>|
                spec_tool_count(orig, n) + occ_tool(recs@, n) <= u32::MAX
                    ==> #[trigger] spec_tool_count(tu@, n) == spec_tool_count(orig, n) + occ_tool(
                    recs@.take(j as int),
                    n,
                ),
        decreases recs@.len() - j,
    {
        let ghost before = tu@;
        bump_tool(tu, recs[j].tool_name.as_str());
        proof {
            let name = recs@[j as int].tool_name@;
            assert(recs@.take(j + 1).drop_last() =~= recs@.take(j as int));
            assert(recs@.take(j + 1).last() == recs@[j as int]);
            assert forall|n: Seq<char>|
                spec_tool_count(orig, n) + occ_tool(recs@, n) <= u32::MAX implies #[trigger] spec_tool_count(
                tu@,
                n,
            ) == spec_tool_count(orig, n) + occ_tool(recs@.take(j + 1), n) by {
                assert(occ_tool(recs@.take(j + 1), n) == occ_tool(recs@.take(j as int), n) + if name
                    == n {
                    1int
                } else {
                    0int
                });
                if n == name {
                    lemma_occ_take_le(recs@, n, j + 1);
                    assert(spec_tool_count(before, n) < u32::MAX);
                    assert(spec_tool_count(tu@, n) == sat_inc_u32(spec_tool_count(before, n)));
                } else {
                    assert(spec_tool_count(tu@, n) == spec_tool_count(before, n));
                }
            }
            assert forall|n: Seq<char>|
                #[trigger] spec_tool_count(tu@, n) >= spec_tool_count(orig, n) by {
                assert(spec_tool_count(tu@, n) >= spec_tool_count(before, n));
            }
        }
        j += 1;
    }
    proof {
        assert(recs@.take(recs@.len() as int) =~= recs@);
    }
}

/// Accomplishments stand extended by exactly one entry per tool-call record.
pub open spec fn accs_extended_by_tools(
    olds: Seq<Accomplishment>,
    news: Seq<Accomplishment>,
    recs: Seq<ToolCallRecord>,
) -> bool {
    &&& news.len() == olds.len() + recs.len()
    &&& forall|i: int| 0 <= i < olds.len() ==> news[i] == olds[i]
    &&& forall|t: int| 0 <= t < recs.len() ==> acc_matches_tool(#[trigger] news[olds.len() + t], recs[t])
}

/// The modified-files list stands extended by the paths the records name.
pub open spec fn files_extended(
    olds: Seq<String>,
    news: Seq<String>,
    recs: Seq<ToolCallRecord>,
) -> bool {
    strs_view(news) == strs_view(olds) + rec_paths(recs)
}

/// Appends one accomplishment per tool-call record and records the touched
/// files.
fn tool_accs(accs: &mut Vec<Accomplishment>, files: &mut Vec<String>, recs: &Vec<ToolCallRecord>)
    requires
        forall|i: int|
            0 <= i < old(accs)@.len() ==> (#[trigger] old(accs)@[i].description@).len() > 0,
    ensures
        accs_extended_by_tools(old(accs)@, final(accs)@, recs@),
        files_extended(old(files)@, final(files)@, recs@),
        forall|i: int|
            0 <= i < final(accs)@.len() ==> (#[trigger] final(accs)@[i].description@).len() > 0,
{
    let ghost oaccs = accs@;
    let ghost ofiles = files@;
    proof {
        assert(recs@.take(0) =~= Seq::<ToolCallRecord>::empty());
        assert(strs_view(files@) =~= strs_view(ofiles) + rec_paths(recs@.take(0)));
    }
    let mut j: usize = 0;
    while j < recs.len()
        invariant
            j <= recs@.len(),
            oaccs == old(accs)@,
            ofiles == old(files)@,
            accs@.len() == oaccs.len() + j,
            forall|i: int| 0 <= i < oaccs.len() ==> accs@[i] == oaccs[i],
            forall|t: int| 0 <= t < j ==> acc_matches_tool(#[trigger] accs@[oaccs.len() + t], recs@[t]),
            strs_view(files@) == strs_view(ofiles) + rec_paths(recs@.take(j as int)),
            forall|i: int| 0 <= i < oaccs.len() ==> (#[trigger] oaccs[i].description@).len() > 0,
            forall|i: int| 0 <= i < accs@.len() ==> (#[trigger] accs@[i].description@).len() > 0,
        decreases recs@.len() - j,
    {
        let r = &recs[j];
        let cat = categorize_tool(r.tool_name.as_str());
        let mut fa: Vec<String> = Vec::new();
        let ghost prev_files = files@;
        let desc: String;
        match &r.file_path {
            Some(p) => {
                let mut d = "Modified ".to_owned();
                d.append(p.as_str());
                desc = d;
                fa.push(p.clone());
                files.push(p.clone());
                proof {
                    reveal_strlit("Modified ");
                    assert(strs_view(files@) =~= strs_view(prev_files).push(p@));
                }
            },
            None => {
                let mut d = "Used ".to_owned();
                d.append(r.tool_name.as_str());
                d.append(" tool");
                desc = d;
                proof {
                    reveal_strlit("Used ");
                }
            },
        }
        accs.push(
            Accomplishment {
                category: cat,
                description: desc,
                duration_ms: r.duration_ms,
                files_affected: fa,
            },
        );
        proof {
            assert(recs@.take(j + 1).drop_last() =~= recs@.take(j as int));
            assert(recs@.take(j + 1).last() == recs@[j as int]);
            match recs@[j as int].file_path {
                Some(p) => {
                    assert(strs_view(files@) =~= strs_view(ofiles) + rec_paths(recs@.take(j + 1)));
                },
                None => {
                    assert(rec_paths(recs@.take(j + 1)) =~= rec_paths(recs@.take(j as int)));
                    assert(strs_view(files@) =~= strs_view(ofiles) + rec_paths(recs@.take(j + 1)));
                },
            }
            assert(acc_matches_tool(accs@[oaccs.len() + j], recs@[j as int]));
        }
        j += 1;
    }
    proof {
        assert(recs@.take(recs@.len() as int) =~= recs@);
    }
}

/// The objective list stands extended by the truncated prompt.
pub open spec fn objectives_extended(olds: Seq<String>, news: Seq<String>, p: Seq<char>) -> bool {
    &&& news.len() == olds.len() + 1
    &&& forall|i: int| 0 <= i < olds.len() ==> news[i] == olds[i]
    &&& news.last()@ == spec_truncate(p, 100)
}

/// The accomplishment list stands extended by the prompt's classification,
/// when the classifier yields one.
pub open spec fn accs_extended_by_prompt(
    olds: Seq<Accomplishment>,
    news: Seq<Accomplishment>,
    p: Seq<char>,
    dur: Option<u64>,
) -> bool {
    if crate::classify::chosen_pattern(lower_of(p)) < crate::classify::pattern_count() || p.len()
        > 20 {
        &&& news.len() == olds.len() + 1
        &&& forall|i: int| 0 <= i < olds.len() ==> news[i] == olds[i]
        &&& classifies(Some(news.last()), lower_of(p), p, dur)
    } else {
        news == olds
    }
}

/// The issue list stands extended by the truncated error text.
pub open spec fn issues_extended(olds: Seq<String>, news: Seq<String>, e: Seq<char>) -> bool {
    &&& news.len() == olds.len() + 1
    &&& forall|i: int| 0 <= i < olds.len() ==> news[i] == olds[i]
    &&& news.last()@ == spec_issue(e)
}

/// The accomplishment list stands extended by the fixed generic analysis
/// entry.
pub open spec fn accs_extended_by_analysis(
    olds: Seq<Accomplishment>,
    news: Seq<Accomplishment>,
    dur: Option<u64>,
) -> bool {
    &&& news.len() == olds.len() + 1
    &&& forall|i: int| 0 <= i < olds.len() ==> news[i] == olds[i]
    &&& news.last().category == Category::Analysis
    &&& news.last().description@ == "Analysis and response provided"@
    &&& news.last().duration_ms == dur
    &&& news.last().files_affected@.len() == 0
}

/// The duration an event contributes, 0 when absent.
pub open spec fn spec_event_duration(e: Event) -> u64 {
    match e.duration_ms {
        Some(d) => d,
        None => 0,
    }
}

impl DiarySession {
    /// Folds one event into the accumulator. Every event unconditionally
    /// accumulates its tool-usage counts and its duration; the per-kind
    /// branch then derives objectives, accomplishments, issues and modified
    /// files, stamps the end time once on session end, and says which
    /// persistence step is due.
    pub fn process_event(&mut self, event: &Event, now: &str) -> (r: SaveAction)
        requires
            old(self).wf(),
        ensures
            final(self).wf(),
            r == (if event.kind == EventKind::SessionEnd {
                SaveAction::Finalize
            } else {
                SaveAction::Incremental
            }),
            final(self).start_time == old(self).start_time,
            final(self).handle == old(self).handle,
            final(self).total_duration_ms == sat_add_u64(
                old(self).total_duration_ms,
                spec_event_duration(*event),
            ),
            forall|n: Seq<char>|
                #[trigger] spec_tool_count(final(self).tool_usage@, n) >= spec_tool_count(
                    old(self).tool_usage@,
                    n,
                ),
            forall|n: Seq<char>|
                spec_tool_count(old(self).tool_usage@, n) + occ_tool(recs_of(*event), n)
                    <= u32::MAX ==> #[trigger] spec_tool_count(final(self).tool_usage@, n)
                    == spec_tool_count(old(self).tool_usage@, n) + occ_tool(recs_of(*event), n),
            (event.kind != EventKind::SessionEnd ==> final(self).end_time == old(self).end_time),
            ((event.kind == EventKind::SessionEnd && old(self).end_time is Some) ==> final(self).end_time == old(self).end_time),
            ((event.kind == EventKind::SessionEnd && old(self).end_time is None) ==> (final(self).end_time matches Some(t) && t@ == now@)),
            ((event.kind == EventKind::SessionStart || event.kind == EventKind::UserPrompt
                || event.kind == EventKind::Message) ==> (match event.user_prompt {
                Some(p) => objectives_extended(old(self).objectives@, final(self).objectives@, p@)
                    && accs_extended_by_prompt(
                    old(self).accomplishments@,
                    final(self).accomplishments@,
                    p@,
                    event.duration_ms,
                ),
                None => final(self).objectives@ == old(self).objectives@ && final(self).accomplishments@ == old(self).accomplishments@,
            }) && final(self).issues@ == old(self).issues@ && final(self).files_modified@ == old(self).files_modified@),
            ((event.kind == EventKind::ToolCall || event.kind == EventKind::ToolResult)
                ==> accs_extended_by_tools(
                old(self).accomplishments@,
                final(self).accomplishments@,
                recs_of(*event),
            ) && files_extended(
                old(self).files_modified@,
                final(self).files_modified@,
                recs_of(*event),
            ) && final(self).objectives@ == old(self).objectives@ && final(self).issues@ == old(self).issues@),
            (event.kind == EventKind::Error ==> (match event.error {
                Some(e) => issues_extended(old(self).issues@, final(self).issues@, e@),
                None => final(self).issues@ == old(self).issues@,
            }) && final(self).objectives@ == old(self).objectives@ && final(self).accomplishments@
                == old(self).accomplishments@ && final(self).files_modified@ == old(self).files_modified@),
            (event.kind == EventKind::SessionEnd ==> final(self).objectives@ == old(self).objectives@ && final(self).accomplishments@ == old(self).accomplishments@ && final(self).issues@ == old(self).issues@ && final(self).files_modified@ == old(self).files_modified@),
            (event.kind == EventKind::Other ==> (match event.assistant_response {
                Some(resp) => (resp@.len() > 50 ==> accs_extended_by_analysis(
                    old(self).accomplishments@,
                    final(self).accomplishments@,
                    event.duration_ms,
                )) && (resp@.len() <= 50 ==> final(self).accomplishments@ == old(self).accomplishments@),
                None => final(self).accomplishments@ == old(self).accomplishments@,
            }) && final(self).objectives@ == old(self).objectives@ && final(self).issues@ == old(self).issues@ && final(self).files_modified@ == old(self).files_modified@),
    {
        match &event.tool_calls {
            Some(recs) => {
                bump_all(&mut self.tool_usage, recs);
            },
            None => {
                proof {
                    assert(recs_of(*event) =~= Seq::<ToolCallRecord>::empty());
                }
            },
        }
        match event.duration_ms {
            Some(d) => {
                let t = self.total_duration_ms;
                self.total_duration_ms = if d > u64::MAX - t {
                    u64::MAX
                } else {
                    t + d
                };
            },
            None => {},
        }
        match event.kind {
            EventKind::SessionStart | EventKind::UserPrompt | EventKind::Message => {
                match &event.user_prompt {
                    Some(p) => {
                        let obj = truncate_chars(p.as_str(), 100);
                        self.objectives.push(obj);
                        match classify_prompt(p.as_str(), event.duration_ms) {
                            Some(a) => {
                                proof {
                                    crate::classify::lemma_defaults_nonempty();
                                    crate::classify::lemma_description_nonempty(
                                        p@,
                                        crate::classify::spec_chosen_default(lower_of(p@)),
                                    );
                                }
                                self.accomplishments.push(a);
                            },
                            None => {},
                        }
                    },
                    None => {},
                }
                SaveAction::Incremental
            },
            EventKind::ToolCall | EventKind::ToolResult => {
                match &event.tool_calls {
                    Some(recs) => {
                        tool_accs(&mut self.accomplishments, &mut self.files_modified, recs);
                    },
                    None => {
                        proof {
                            assert(recs_of(*event) =~= Seq::<ToolCallRecord>::empty());
                            assert(rec_paths(recs_of(*event)) =~= Seq::<Seq<char>>::empty());
                            assert(strs_view(self.files_modified@) =~= strs_view(
                                self.files_modified@,
                            ) + rec_paths(recs_of(*event)));
                        }
                    },
                }
                SaveAction::Incremental
            },
            EventKind::Error => {
                match &event.error {
                    Some(e) => {
                        let issue = crate::classify::build_issue(e.as_str());
                        self.issues.push(issue);
                    },
                    None => {},
                }
                SaveAction::Incremental
            },
            EventKind::SessionEnd => {
                if self.end_time.is_none() {
                    self.end_time = Some(now.to_owned());
                }
                SaveAction::Finalize
            },
            EventKind::Other => {
                match &event.assistant_response {
                    Some(resp) => {
                        if resp.as_str().unicode_len() > 50 {
                            proof {
                                reveal_strlit("Analysis and response provided");
                            }
                            self.accomplishments.push(
                                Accomplishment {
                                    category: Category::Analysis,
                                    description: "Analysis and response provided".to_owned(),
                                    duration_ms: event.duration_ms,
                                    files_affected: Vec::new(),
                                },
                            );
                        }
                    },
                    None => {},
                }
                SaveAction::Incremental
            },
        }
    }
}

/// Duration accumulation is order-independent: folding two event durations
/// into a running total yields the same cumulative duration in either order.
pub proof fn lemma_duration_order_independent(t: u64, d1: u64, d2: u64)
    ensures
        sat_add_u64(sat_add_u64(t, d1), d2) == sat_add_u64(sat_add_u64(t, d2), d1),
{
}

/// The recorded count of the first row holding a name is that name's count.
proof fn lemma_tool_count_at(tu: Seq<ToolUsage>, i: int)
    requires
        0 <= i < tu.len(),
        forall|j: int| 0 <= j < i ==> (#[trigger] tu[j].tool_name@) != tu[i].tool_name@,
    ensures
        spec_tool_count(tu, tu[i].tool_name@) == tu[i].count,
    decreases i,
{
    if i > 0 {
        assert(tu.drop_first()[i - 1] == tu[i]);
        assert forall|j: int| 0 <= j < i - 1 implies (#[trigger] tu.drop_first()[j].tool_name@)
            != tu.drop_first()[i - 1].tool_name@ by {
            assert(tu.drop_first()[j] == tu[j + 1]);
            assert(tu[j + 1].tool_name@ != tu[i].tool_name@);
        }
        lemma_tool_count_at(tu.drop_first(), i - 1);
    }
}

/// A name no row holds counts 0.
proof fn lemma_tool_count_absent(tu: Seq<ToolUsage>, n: Seq<char>)
    requires
        forall|j: int| 0 <= j < tu.len() ==> (#[trigger] tu[j].tool_name@) != n,
    ensures
        spec_tool_count(tu, n) == 0,
    decreases tu.len(),
{
    if tu.len() > 0 {
        assert forall|j: int| 0 <= j < tu.drop_first().len() implies (#[trigger] tu.drop_first(
        )[j].tool_name@) != n by {
            assert(tu.drop_first()[j] == tu[j + 1]);
            assert(tu[j + 1].tool_name@ != n);
        }
        lemma_tool_count_absent(tu.drop_first(), n);
    }
}

} // verus!
