//! The persistence layer's verified core. The relational store itself is
//! plain table I/O; what this module owns is every decision about it: which
//! rows an incremental save inserts (the existence check that makes repeated
//! saves idempotent), what the authoritative finalization writes, and a
//! row-level model of the six tables against which those decisions are
//! proved. A caller queries the current rows, asks for a plan, and executes
//! it statement by statement.

use vstd::prelude::*;
use vstd::string::*;

use crate::classify::{Accomplishment, Category};
use crate::session::{DiarySession, ToolUsage};
use crate::text::{contains_str, sorted_strict, sorted_unique, str_eq, strs_view};

verus! {

// ------------------------------------------------------------------
// Row model
// ------------------------------------------------------------------
/// One row of the sessions table.
pub struct SessionRow {
    pub id: i64,
    pub start_time: String,
    pub end_time: Option<String>,
    pub total_duration_ms: u64,
}

/// One row of the accomplishments table, with its child file rows folded in.
pub struct AccRow {
    pub session_id: i64,
    pub category: Category,
    pub description: String,
    pub duration_ms: Option<u64>,
    pub files: Vec<String>,
}

/// One row of the objectives table.
pub struct ObjectiveRow {
    pub session_id: i64,
    pub objective: String,
}

/// One row of the issues table.
pub struct IssueRow {
    pub session_id: i64,
    pub issue: String,
}

/// One row of the tool_usage table.
pub struct ToolRow {
    pub session_id: i64,
    pub tool_name: String,
    pub count: u32,
}

/// One row of the files_modified table.
pub struct FileRow {
    pub session_id: i64,
    pub file_path: String,
}

// ------------------------------------------------------------------
// Ghost views of rows and in-memory values
// ------------------------------------------------------------------
/// The mathematical content of an accomplishment.
pub ghost struct AccV {
    pub category: Category,
    pub description: Seq<char>,
    pub duration_ms: Option<u64>,
    pub files: Seq<Seq<char>>,
}

/// The mathematical content of an accomplishment row.
pub ghost struct AccRowV {
    pub session_id: i64,
    pub category: Category,
    pub description: Seq<char>,
    pub duration_ms: Option<u64>,
    pub files: Seq<Seq<char>>,
}

pub open spec fn acc_view(a: Accomplishment) -> AccV {
    AccV {
        category: a.category,
        description: a.description@,
        duration_ms: a.duration_ms,
        files: strs_view(a.files_affected@),
    }
}

pub open spec fn accs_view(s: Seq<Accomplishment>) -> Seq<AccV> {
    s.map_values(|a: Accomplishment| acc_view(a))
}

pub open spec fn arow_view(r: AccRow) -> AccRowV {
    AccRowV {
        session_id: r.session_id,
        category: r.category,
        description: r.description@,
        duration_ms: r.duration_ms,
        files: strs_view(r.files@),
    }
}

pub open spec fn arows_view(s: Seq<AccRow>) -> Seq<AccRowV> {
    s.map_values(|r: AccRow| arow_view(r))
}

pub open spec fn orows_view(s: Seq<ObjectiveRow>) -> Seq<(i64, Seq<char>)> {
    s.map_values(|r: ObjectiveRow| (r.session_id, r.objective@))
}

pub open spec fn irows_view(s: Seq<IssueRow>) -> Seq<(i64, Seq<char>)> {
    s.map_values(|r: IssueRow| (r.session_id, r.issue@))
}

pub open spec fn trows_view(s: Seq<ToolRow>) -> Seq<(i64, Seq<char>, u32)> {
    s.map_values(|r: ToolRow| (r.session_id, r.tool_name@, r.count))
}

pub open spec fn frows_view(s: Seq<FileRow>) -> Seq<(i64, Seq<char>)> {
    s.map_values(|r: FileRow| (r.session_id, r.file_path@))
}

pub open spec fn tools_view(s: Seq<ToolUsage>) -> Seq<(Seq<char>, u32)> {
    s.map_values(|t: ToolUsage| (t.tool_name@, t.count))
}

/// The row a session's accomplishment becomes.
pub open spec fn acc_rows_of(sid: i64, accs: Seq<AccV>) -> Seq<AccRowV> {
    accs.map_values(
        |a: AccV|
            AccRowV {
                session_id: sid,
                category: a.category,
                description: a.description,
                duration_ms: a.duration_ms,
                files: a.files,
            },
    )
}

/// The rows a list of texts becomes, owned by `sid`.
pub open spec fn text_rows_of(sid: i64, texts: Seq<Seq<char>>) -> Seq<(i64, Seq<char>)> {
    texts.map_values(|t: Seq<char>| (sid, t))
}

/// The rows a tool-usage mapping becomes, owned by `sid`.
pub open spec fn tool_rows_of(sid: i64, tools: Seq<(Seq<char>, u32)>) -> Seq<(i64, Seq<char>, u32)> {
    tools.map_values(|t: (Seq<char>, u32)| (sid, t.0, t.1))
}

/// The descriptions of the given accomplishments.
pub open spec fn descs_of(accs: Seq<AccV>) -> Seq<Seq<char>> {
    accs.map_values(|a: AccV| a.description)
}

/// The descriptions already persisted for session `sid`, in row order.
pub open spec fn descs_for(rows: Seq<AccRowV>, sid: i64) -> Seq<Seq<char>>
    decreases rows.len(),
{
    if rows.len() == 0 {
        Seq::empty()
    } else {
        descs_for(rows.drop_last(), sid) + if rows.last().session_id == sid {
            seq![rows.last().description]
        } else {
            Seq::empty()
        }
    }
}

/// The objective texts already persisted for session `sid`, in row order.
pub open spec fn texts_for(rows: Seq<(i64, Seq<char>)>, sid: i64) -> Seq<Seq<char>>
    decreases rows.len(),
{
    if rows.len() == 0 {
        Seq::empty()
    } else {
        texts_for(rows.drop_last(), sid) + if rows.last().0 == sid {
            seq![rows.last().1]
        } else {
            Seq::empty()
        }
    }
}

// ------------------------------------------------------------------
// The incremental save's decision: insert only what is not there yet
// ------------------------------------------------------------------
/// The accomplishments an incremental save inserts: walking the in-memory
/// list left to right, one whose description is already present — in the
/// store's rows or inserted earlier in the same walk — is skipped.
pub open spec fn new_accs(mem: Seq<AccV>, seen: Seq<Seq<char>>) -> Seq<AccV>
    decreases mem.len(),
{
    if mem.len() == 0 {
        Seq::empty()
    } else if seen.contains(mem[0].description) {
        new_accs(mem.drop_first(), seen)
    } else {
        seq![mem[0]] + new_accs(mem.drop_first(), seen.push(mem[0].description))
    }
}

/// The objectives an incremental save inserts, by the same walk.
pub open spec fn new_texts(mem: Seq<Seq<char>>, seen: Seq<Seq<char>>) -> Seq<Seq<char>>
    decreases mem.len(),
{
    if mem.len() == 0 {
        Seq::empty()
    } else if seen.contains(mem[0]) {
        new_texts(mem.drop_first(), seen)
    } else {
        seq![mem[0]] + new_texts(mem.drop_first(), seen.push(mem[0]))
    }
}

// ------------------------------------------------------------------
// Plans
// ------------------------------------------------------------------
/// Everything one incremental save writes: the updated cumulative duration,
/// the not-yet-persisted accomplishments and objectives, and the tool counts
/// to upsert. Issues and modified files are deliberately absent: they are
/// written only on finalization.
pub struct IncrementalPlan {
    pub session_id: i64,
    pub total_duration_ms: u64,
    pub new_accomplishments: Vec<Accomplishment>,
    pub new_objectives: Vec<String>,
    pub tool_counts: Vec<ToolUsage>,
}

/// Everything the authoritative finalization writes: the end time and final
/// duration, then every accomplishment, objective, issue and tool count as
/// plain inserts, and the modified files deduplicated and sorted.
pub struct FinalPlan {
    pub session_id: i64,
    pub end_time: Option<String>,
    pub total_duration_ms: u64,
    pub accomplishments: Vec<Accomplishment>,
    pub objectives: Vec<String>,
    pub issues: Vec<String>,
    pub tool_counts: Vec<ToolUsage>,
    pub files: Vec<String>,
}

fn contains_string(v: &Vec<String>, s: &str) -> (r: bool)
    ensures
        r == strs_view(v@).contains(s@),
{
    let mut i: usize = 0;
    while i < v.len()
        invariant
            i <= v@.len(),
            forall|j: int| 0 <= j < i ==> strs_view(v@)[j] != s@,
        decreases v@.len() - i,
    {
        if str_eq(v[i].as_str(), s) {
            proof {
                assert(strs_view(v@)[i as int] == s@);
            }
            return true;
        }
        proof {
            assert(strs_view(v@)[i as int] == v@[i as int]@);
        }
        i += 1;
    }
    false
}

pub(crate) fn dup_strings(v: &Vec<String>) -> (r: Vec<String>)
    ensures
        strs_view(r@) == strs_view(v@),
{
    let mut out: Vec<String> = Vec::new();
    let mut i: usize = 0;
    while i < v.len()
        invariant
            i <= v@.len(),
            out@.len() == i,
            forall|j: int| 0 <= j < i ==> out@[j]@ == v@[j]@,
        decreases v@.len() - i,
    {
        out.push(v[i].clone());
        i += 1;
    }
    proof {
        assert(strs_view(out@) =~= strs_view(v@));
    }
    out
}

pub(crate) fn dup_tools(v: &Vec<ToolUsage>) -> (r: Vec<ToolUsage>)
    ensures
        tools_view(r@) == tools_view(v@),
{
    let mut out: Vec<ToolUsage> = Vec::new();
    let mut i: usize = 0;
    while i < v.len()
        invariant
            i <= v@.len(),
            out@.len() == i,
            forall|j: int|
                0 <= j < i ==> out@[j].tool_name@ == v@[j].tool_name@ && out@[j].count
                    == v@[j].count,
        decreases v@.len() - i,
    {
        out.push(ToolUsage { tool_name: v[i].tool_name.clone(), count: v[i].count });
        i += 1;
    }
    proof {
        assert(tools_view(out@) =~= tools_view(v@));
    }
    out
}

/// Plans one incremental save against a fresh snapshot of the rows already
/// persisted for this session: only accomplishments and objectives whose
/// text is not among the snapshot (nor earlier in the same plan) are
/// inserted, which is what makes repeated incremental saves idempotent.
pub fn incremental_plan(
    session: &DiarySession,
    session_id: i64,
    existing_descs: &Vec<String>,
    existing_objectives: &Vec<String>,
) -> (p: IncrementalPlan)
    ensures
        p.session_id == session_id,
        p.total_duration_ms == session.total_duration_ms,
        accs_view(p.new_accomplishments@) == new_accs(
            accs_view(session.accomplishments@),
            strs_view(existing_descs@),
        ),
        strs_view(p.new_objectives@) == new_texts(
            strs_view(session.objectives@),
            strs_view(existing_objectives@),
        ),
        tools_view(p.tool_counts@) == tools_view(session.tool_usage@),
{
    let ghost memv = accs_view(session.accomplishments@);
    let mut seen = dup_strings(existing_descs);
    let mut accs: Vec<Accomplishment> = Vec::new();
    let mut i: usize = 0;
    proof {
        assert(memv.skip(0) =~= memv);
        assert(accs_view(accs@) =~= Seq::<AccV>::empty());
    }
    while i < session.accomplishments.len()
        invariant
            i <= session.accomplishments@.len(),
            memv == accs_view(session.accomplishments@),
            new_accs(memv, strs_view(existing_descs@)) == accs_view(accs@) + new_accs(
                memv.skip(i as int),
                strs_view(seen@),
            ),
        decreases session.accomplishments@.len() - i,
    {
        let a = &session.accomplishments[i];
        proof {
            assert(memv.skip(i as int)[0] == memv[i as int]);
            assert(memv[i as int] == acc_view(session.accomplishments@[i as int]));
            assert(memv.skip(i as int).drop_first() =~= memv.skip(i + 1));
        }
        if !contains_string(&seen, a.description.as_str()) {
            let ghost prev_accs = accs@;
            let ghost prev_seen = seen@;
            accs.push(a.duplicate());
            seen.push(a.description.clone());
            proof {
                assert(acc_view(accs@.last()) == memv[i as int]) by {
                    assert(strs_view(accs@.last().files_affected@) =~= strs_view(
                        session.accomplishments@[i as int].files_affected@,
                    ));
                }
                assert(accs_view(accs@) =~= accs_view(prev_accs).push(memv[i as int]));
                assert(strs_view(seen@) =~= strs_view(prev_seen).push(memv[i as int].description));
                assert(accs_view(prev_accs) + (seq![memv[i as int]] + new_accs(
                    memv.skip(i + 1),
                    strs_view(seen@),
                )) =~= accs_view(accs@) + new_accs(memv.skip(i + 1), strs_view(seen@)));
            }
        }
        i += 1;
    }
    proof {
        assert(memv.skip(memv.len() as int) =~= Seq::<AccV>::empty());
        assert(accs_view(accs@) + Seq::<AccV>::empty() =~= accs_view(accs@));
    }
    let ghost objv = strs_view(session.objectives@);
    let mut oseen = dup_strings(existing_objectives);
    let mut objs: Vec<String> = Vec::new();
    let mut j: usize = 0;
    proof {
        assert(objv.skip(0) =~= objv);
        assert(strs_view(objs@) =~= Seq::<Seq<char>>::empty());
    }
    while j < session.objectives.len()
        invariant
            j <= session.objectives@.len(),
            objv == strs_view(session.objectives@),
            new_texts(objv, strs_view(existing_objectives@)) == strs_view(objs@) + new_texts(
                objv.skip(j as int),
                strs_view(oseen@),
            ),
        decreases session.objectives@.len() - j,
    {
        let o = &session.objectives[j];
        proof {
            assert(objv.skip(j as int)[0] == objv[j as int]);
            assert(objv[j as int] == session.objectives@[j as int]@);
            assert(objv.skip(j as int).drop_first() =~= objv.skip(j + 1));
        }
        if !contains_string(&oseen, o.as_str()) {
            let ghost prev_objs = objs@;
            let ghost prev_seen = oseen@;
            objs.push(o.clone());
            oseen.push(o.clone());
            proof {
                assert(strs_view(objs@) =~= strs_view(prev_objs).push(objv[j as int]));
                assert(strs_view(oseen@) =~= strs_view(prev_seen).push(objv[j as int]));
                assert(strs_view(prev_objs) + (seq![objv[j as int]] + new_texts(
                    objv.skip(j + 1),
                    strs_view(oseen@),
                )) =~= strs_view(objs@) + new_texts(objv.skip(j + 1), strs_view(oseen@)));
            }
        }
        j += 1;
    }
    proof {
        assert(objv.skip(objv.len() as int) =~= Seq::<Seq<char>>::empty());
        assert(strs_view(objs@) + Seq::<Seq<char>>::empty() =~= strs_view(objs@));
    }
    let tools = dup_tools(&session.tool_usage);
    IncrementalPlan {
        session_id,
        total_duration_ms: session.total_duration_ms,
        new_accomplishments: accs,
        new_objectives: objs,
        tool_counts: tools,
    }
}

fn dup_accs(v: &Vec<Accomplishment>) -> (r: Vec<Accomplishment>)
    ensures
        accs_view(r@) == accs_view(v@),
{
    let mut out: Vec<Accomplishment> = Vec::new();
    let mut i: usize = 0;
    while i < v.len()
        invariant
            i <= v@.len(),
            out@.len() == i,
            forall|j: int| 0 <= j < i ==> acc_view(#[trigger] out@[j]) == acc_view(v@[j]),
        decreases v@.len() - i,
    {
        let d = v[i].duplicate();
        proof {
            assert(strs_view(d.files_affected@) =~= strs_view(v@[i as int].files_affected@));
        }
        out.push(d);
        i += 1;
    }
    proof {
        assert(accs_view(out@) =~= accs_view(v@));
    }
    out
}

/// Plans the authoritative finalization. Unlike the incremental plan it
/// performs no existence check: callers must finalize exactly once, since a
/// second finalization writes every row again.
pub fn finalize_plan(session: &DiarySession, session_id: i64) -> (p: FinalPlan)
    ensures
        p.session_id == session_id,
        p.total_duration_ms == session.total_duration_ms,
        (match (p.end_time, session.end_time) {
            (Some(a), Some(b)) => a@ == b@,
            (None, None) => true,
            _ => false,
        }),
        accs_view(p.accomplishments@) == accs_view(session.accomplishments@),
        strs_view(p.objectives@) == strs_view(session.objectives@),
        strs_view(p.issues@) == strs_view(session.issues@),
        tools_view(p.tool_counts@) == tools_view(session.tool_usage@),
        sorted_strict(p.files@),
        forall|m: Seq<char>|
            #[trigger] contains_str(p.files@, m) <==> strs_view(session.files_modified@).contains(
                m,
            ),
{
    let end_time: Option<String> = match &session.end_time {
        Some(t) => Some(t.clone()),
        None => None,
    };
    FinalPlan {
        session_id,
        end_time,
        total_duration_ms: session.total_duration_ms,
        accomplishments: dup_accs(&session.accomplishments),
        objectives: dup_strings(&session.objectives),
        issues: dup_strings(&session.issues),
        tool_counts: dup_tools(&session.tool_usage),
        files: sorted_unique(&session.files_modified),
    }
}

// ------------------------------------------------------------------
// A row-level model of the six tables
// ------------------------------------------------------------------
/// The view of a session row: identifier, start time, end time, duration.
pub open spec fn srow_view(r: SessionRow) -> (i64, Seq<char>, Option<Seq<char>>, u64) {
    (r.id, r.start_time@, opt_view(r.end_time), r.total_duration_ms)
}

pub open spec fn opt_view(o: Option<String>) -> Option<Seq<char>> {
    match o {
        Some(t) => Some(t@),
        None => None,
    }
}

pub open spec fn srows_view(s: Seq<SessionRow>) -> Seq<(i64, Seq<char>, Option<Seq<char>>, u64)> {
    s.map_values(|r: SessionRow| srow_view(r))
}

/// Session rows after the cumulative duration of session `sid` is updated.
pub open spec fn upd_duration(
    rows: Seq<(i64, Seq<char>, Option<Seq<char>>, u64)>,
    sid: i64,
    d: u64,
) -> Seq<(i64, Seq<char>, Option<Seq<char>>, u64)> {
    rows.map_values(
        |r: (i64, Seq<char>, Option<Seq<char>>, u64)|
            if r.0 == sid {
                (r.0, r.1, r.2, d)
            } else {
                r
            },
    )
}

/// Session rows after end time and final duration of session `sid` are set.
pub open spec fn upd_end(
    rows: Seq<(i64, Seq<char>, Option<Seq<char>>, u64)>,
    sid: i64,
    end: Option<Seq<char>>,
    d: u64,
) -> Seq<(i64, Seq<char>, Option<Seq<char>>, u64)> {
    rows.map_values(
        |r: (i64, Seq<char>, Option<Seq<char>>, u64)|
            if r.0 == sid {
                (r.0, r.1, end, d)
            } else {
                r
            },
    )
}

/// Replace-on-conflict keyed by `(sid, name)`: the first matching row's
/// count becomes `c`; without a match a new row is appended.
pub open spec fn upsert_tool(
    rows: Seq<(i64, Seq<char>, u32)>,
    sid: i64,
    name: Seq<char>,
    c: u32,
) -> Seq<(i64, Seq<char>, u32)>
    decreases rows.len(),
{
    if rows.len() == 0 {
        seq![(sid, name, c)]
    } else if rows[0].0 == sid && rows[0].1 == name {
        seq![(sid, name, c)] + rows.drop_first()
    } else {
        seq![rows[0]] + upsert_tool(rows.drop_first(), sid, name, c)
    }
}

/// All of a session's tool counts upserted in order.
pub open spec fn upsert_all(
    rows: Seq<(i64, Seq<char>, u32)>,
    sid: i64,
    tools: Seq<(Seq<char>, u32)>,
) -> Seq<(i64, Seq<char>, u32)>
    decreases tools.len(),
{
    if tools.len() == 0 {
        rows
    } else {
        upsert_all(upsert_tool(rows, sid, tools[0].0, tools[0].1), sid, tools.drop_first())
    }
}

/// An in-memory model of the relational store, one vector per table, rows in
/// insertion order. It exhibits exactly the behaviour the save plans assume
/// of the backing store.
pub struct Store {
    pub sessions: Vec<SessionRow>,
    pub accomplishments: Vec<AccRow>,
    pub objectives: Vec<ObjectiveRow>,
    pub issues: Vec<IssueRow>,
    pub tool_usage: Vec<ToolRow>,
    pub files_modified: Vec<FileRow>,
}

proof fn lemma_upsert_skip(rows: Seq<(i64, Seq<char>, u32)>, i: int, sid: i64, name: Seq<char>, c: u32)
    requires
        0 <= i <= rows.len(),
        forall|t: int| 0 <= t < i ==> !((#[trigger] rows[t]).0 == sid && rows[t].1 == name),
    ensures
        upsert_tool(rows, sid, name, c) == rows.take(i) + upsert_tool(rows.skip(i), sid, name, c),
    decreases i,
{
    if i == 0 {
        assert(rows.skip(0) =~= rows);
        assert(rows.take(0) + upsert_tool(rows, sid, name, c) =~= upsert_tool(rows, sid, name, c));
    } else {
        assert(rows.len() > 0);
        assert(!(rows[0].0 == sid && rows[0].1 == name));
        assert forall|t: int| 0 <= t < i - 1 implies !((#[trigger] rows.drop_first()[t]).0 == sid
            && rows.drop_first()[t].1 == name) by {
            assert(rows.drop_first()[t] == rows[t + 1]);
        }
        lemma_upsert_skip(rows.drop_first(), i - 1, sid, name, c);
        assert(rows.drop_first().take(i - 1) =~= rows.take(i).drop_first());
        assert(rows.drop_first().skip(i - 1) =~= rows.skip(i));
        assert(seq![rows[0]] + (rows.drop_first().take(i - 1) + upsert_tool(
            rows.skip(i),
            sid,
            name,
            c,
        )) =~= rows.take(i) + upsert_tool(rows.skip(i), sid, name, c));
    }
}

fn upsert_tool_row(rows: &mut Vec<ToolRow>, sid: i64, name: &str, c: u32)
    ensures
        trows_view(final(rows)@) == upsert_tool(trows_view(old(rows)@), sid, name@, c),
{
    let ghost orig = trows_view(rows@);
    let mut i: usize = 0;
    while i < rows.len()
        invariant
            orig == trows_view(rows@),
            orig == trows_view(old(rows)@),
            i <= rows@.len(),
            forall|t: int| 0 <= t < i ==> !((#[trigger] orig[t]).0 == sid && orig[t].1 == name@),
        decreases rows@.len() - i,
    {
        let is_match = rows[i].session_id == sid && str_eq(rows[i].tool_name.as_str(), name);
        if is_match {
            let _old_row = rows.remove(i);
            rows.insert(i, ToolRow { session_id: sid, tool_name: name.to_owned(), count: c });
            proof {
                lemma_upsert_skip(orig, i as int, sid, name@, c);
                assert(orig.skip(i as int)[0] == orig[i as int]);
                assert(upsert_tool(orig.skip(i as int), sid, name@, c) == seq![(sid, name@, c)]
                    + orig.skip(i as int).drop_first());
                assert(orig.skip(i as int).drop_first() =~= orig.skip(i + 1));
                assert(trows_view(rows@) =~= orig.take(i as int) + (seq![(sid, name@, c)]
                    + orig.skip(i + 1)));
            }
            return ;
        }
        proof {
            assert(orig[i as int] == (rows@[i as int].session_id, rows@[i as int].tool_name@,
                rows@[i as int].count));
        }
        i += 1;
    }
    rows.push(ToolRow { session_id: sid, tool_name: name.to_owned(), count: c });
    proof {
        lemma_upsert_skip(orig, orig.len() as int, sid, name@, c);
        assert(orig.skip(orig.len() as int) =~= Seq::<(i64, Seq<char>, u32)>::empty());
        assert(orig.take(orig.len() as int) =~= orig);
        assert(trows_view(rows@) =~= orig + seq![(sid, name@, c)]);
    }
}

impl Store {
    /// An empty store: the state just after the schema is created.
    pub fn new() -> (s: Store)
        ensures
            s.sessions@.len() == 0,
            s.accomplishments@.len() == 0,
            s.objectives@.len() == 0,
            s.issues@.len() == 0,
            s.tool_usage@.len() == 0,
            s.files_modified@.len() == 0,
    {
        Store {
            sessions: Vec::new(),
            accomplishments: Vec::new(),
            objectives: Vec::new(),
            issues: Vec::new(),
            tool_usage: Vec::new(),
            files_modified: Vec::new(),
        }
    }

    /// Inserts a fresh session row and returns its generated identifier.
    pub fn create_session(&mut self, start_time: String) -> (id: i64)
        requires
            old(self).sessions@.len() < i64::MAX,
        ensures
            id == old(self).sessions@.len() + 1,
            srows_view(final(self).sessions@) == srows_view(old(self).sessions@).push(
                (id, start_time@, None, 0u64),
            ),
            final(self).accomplishments == old(self).accomplishments,
            final(self).objectives == old(self).objectives,
            final(self).issues == old(self).issues,
            final(self).tool_usage == old(self).tool_usage,
            final(self).files_modified == old(self).files_modified,
    {
        let id: i64 = (self.sessions.len() as i64) + 1;
        self.sessions.push(
            SessionRow { id, start_time, end_time: None, total_duration_ms: 0 },
        );
        proof {
            assert(srows_view(self.sessions@) =~= srows_view(old(self).sessions@).push(
                (id, self.sessions@.last().start_time@, None, 0u64),
            ));
        }
        id
    }

    /// The descriptions already persisted for session `sid`, freshly queried.
    pub fn acc_descs_for(&self, sid: i64) -> (r: Vec<String>)
        ensures
            strs_view(r@) == descs_for(arows_view(self.accomplishments@), sid),
    {
        let mut out: Vec<String> = Vec::new();
        let mut i: usize = 0;
        proof {
            assert(arows_view(self.accomplishments@).take(0)
                =~= Seq::<AccRowV>::empty());
            assert(strs_view(out@) =~= Seq::<Seq<char>>::empty());
        }
        while i < self.accomplishments.len()
            invariant
                i <= self.accomplishments@.len(),
                strs_view(out@) == descs_for(
                    arows_view(self.accomplishments@).take(i as int),
                    sid,
                ),
            decreases self.accomplishments@.len() - i,
        {
            let ghost rv = arows_view(self.accomplishments@);
            let ghost prev = out@;
            if self.accomplishments[i].session_id == sid {
                out.push(self.accomplishments[i].description.clone());
            }
            proof {
                assert(rv.take(i + 1).drop_last() =~= rv.take(i as int));
                assert(rv.take(i + 1).last() == rv[i as int]);
                assert(rv[i as int] == arow_view(self.accomplishments@[i as int]));
                if self.accomplishments@[i as int].session_id == sid {
                    assert(strs_view(out@) =~= strs_view(prev).push(
                        self.accomplishments@[i as int].description@,
                    ));
                    assert(strs_view(out@) =~= descs_for(rv.take(i + 1), sid));
                } else {
                    assert(strs_view(out@) =~= descs_for(rv.take(i + 1), sid));
                }
            }
            i += 1;
        }
        proof {
            assert(arows_view(self.accomplishments@).take(self.accomplishments@.len() as int)
                =~= arows_view(self.accomplishments@));
        }
        out
    }

    /// The objective texts already persisted for session `sid`.
    pub fn objectives_for(&self, sid: i64) -> (r: Vec<String>)
        ensures
            strs_view(r@) == texts_for(orows_view(self.objectives@), sid),
    {
        let mut out: Vec<String> = Vec::new();
        let mut i: usize = 0;
        proof {
            assert(orows_view(self.objectives@).take(0) =~= Seq::<(i64, Seq<char>)>::empty());
            assert(strs_view(out@) =~= Seq::<Seq<char>>::empty());
        }
        while i < self.objectives.len()
            invariant
                i <= self.objectives@.len(),
                strs_view(out@) == texts_for(orows_view(self.objectives@).take(i as int), sid),
            decreases self.objectives@.len() - i,
        {
            let ghost rv = orows_view(self.objectives@);
            let ghost prev = out@;
            if self.objectives[i].session_id == sid {
                out.push(self.objectives[i].objective.clone());
            }
            proof {
                assert(rv.take(i + 1).drop_last() =~= rv.take(i as int));
                assert(rv.take(i + 1).last() == rv[i as int]);
                assert(rv[i as int] == (self.objectives@[i as int].session_id,
                    self.objectives@[i as int].objective@));
                if self.objectives@[i as int].session_id == sid {
                    assert(strs_view(out@) =~= strs_view(prev).push(
                        self.objectives@[i as int].objective@,
                    ));
                    assert(strs_view(out@) =~= texts_for(rv.take(i + 1), sid));
                } else {
                    assert(strs_view(out@) =~= texts_for(rv.take(i + 1), sid));
                }
            }
            i += 1;
        }
        proof {
            assert(orows_view(self.objectives@).take(self.objectives@.len() as int)
                =~= orows_view(self.objectives@));
        }
        out
    }
}

fn append_acc_rows(rows: &mut Vec<AccRow>, sid: i64, accs: &Vec<Accomplishment>)
    ensures
        arows_view(final(rows)@) == arows_view(old(rows)@) + acc_rows_of(sid, accs_view(accs@)),
{
    let ghost orig = arows_view(rows@);
    let mut i: usize = 0;
    proof {
        assert(acc_rows_of(sid, accs_view(accs@).take(0)) =~= Seq::<AccRowV>::empty());
        assert(arows_view(rows@) =~= orig + acc_rows_of(sid, accs_view(accs@).take(0)));
    }
    while i < accs.len()
        invariant
            i <= accs@.len(),
            orig == arows_view(old(rows)@),
            arows_view(rows@) == orig + acc_rows_of(sid, accs_view(accs@).take(i as int)),
        decreases accs@.len() - i,
    {
        let a = &accs[i];
        let ghost prev = rows@;
        rows.push(
            AccRow {
                session_id: sid,
                category: a.category,
                description: a.description.clone(),
                duration_ms: a.duration_ms,
                files: dup_strings(&a.files_affected),
            },
        );
        proof {
            assert(arow_view(rows@.last()) == AccRowV {
                session_id: sid,
                category: accs@[i as int].category,
                description: accs@[i as int].description@,
                duration_ms: accs@[i as int].duration_ms,
                files: strs_view(accs@[i as int].files_affected@),
            });
            assert(arows_view(rows@) =~= arows_view(prev).push(arow_view(rows@.last())));
            assert(accs_view(accs@).take(i + 1) =~= accs_view(accs@).take(i as int).push(
                acc_view(accs@[i as int]),
            ));
            assert(acc_rows_of(sid, accs_view(accs@).take(i + 1)) =~= acc_rows_of(
                sid,
                accs_view(accs@).take(i as int),
            ).push(arow_view(rows@.last())));
            assert(arows_view(rows@) =~= orig + acc_rows_of(sid, accs_view(accs@).take(i + 1)));
        }
        i += 1;
    }
    proof {
        assert(accs_view(accs@).take(accs@.len() as int) =~= accs_view(accs@));
    }
}

fn append_objective_rows(rows: &mut Vec<ObjectiveRow>, sid: i64, texts: &Vec<String>)
    ensures
        orows_view(final(rows)@) == orows_view(old(rows)@) + text_rows_of(sid, strs_view(texts@)),
{
    let ghost orig = orows_view(rows@);
    let mut i: usize = 0;
    proof {
        assert(text_rows_of(sid, strs_view(texts@).take(0)) =~= Seq::<(i64, Seq<char>)>::empty());
        assert(orows_view(rows@) =~= orig + text_rows_of(sid, strs_view(texts@).take(0)));
    }
    while i < texts.len()
        invariant
            i <= texts@.len(),
            orig == orows_view(old(rows)@),
            orows_view(rows@) == orig + text_rows_of(sid, strs_view(texts@).take(i as int)),
        decreases texts@.len() - i,
    {
        let ghost prev = rows@;
        rows.push(ObjectiveRow { session_id: sid, objective: texts[i].clone() });
        proof {
            assert(orows_view(rows@) =~= orows_view(prev).push((sid, texts@[i as int]@)));
            assert(strs_view(texts@).take(i + 1) =~= strs_view(texts@).take(i as int).push(
                texts@[i as int]@,
            ));
            assert(text_rows_of(sid, strs_view(texts@).take(i + 1)) =~= text_rows_of(
                sid,
                strs_view(texts@).take(i as int),
            ).push((sid, texts@[i as int]@)));
            assert(orows_view(rows@) =~= orig + text_rows_of(
                sid,
                strs_view(texts@).take(i + 1),
            ));
        }
        i += 1;
    }
    proof {
        assert(strs_view(texts@).take(texts@.len() as int) =~= strs_view(texts@));
    }
}

fn append_issue_rows(rows: &mut Vec<IssueRow>, sid: i64, texts: &Vec<String>)
    ensures
        irows_view(final(rows)@) == irows_view(old(rows)@) + text_rows_of(sid, strs_view(texts@)),
{
    let ghost orig = irows_view(rows@);
    let mut i: usize = 0;
    proof {
        assert(text_rows_of(sid, strs_view(texts@).take(0)) =~= Seq::<(i64, Seq<char>)>::empty());
        assert(irows_view(rows@) =~= orig + text_rows_of(sid, strs_view(texts@).take(0)));
    }
    while i < texts.len()
        invariant
            i <= texts@.len(),
            orig == irows_view(old(rows)@),
            irows_view(rows@) == orig + text_rows_of(sid, strs_view(texts@).take(i as int)),
        decreases texts@.len() - i,
    {
        let ghost prev = rows@;
        rows.push(IssueRow { session_id: sid, issue: texts[i].clone() });
        proof {
            assert(irows_view(rows@) =~= irows_view(prev).push((sid, texts@[i as int]@)));
            assert(strs_view(texts@).take(i + 1) =~= strs_view(texts@).take(i as int).push(
                texts@[i as int]@,
            ));
            assert(text_rows_of(sid, strs_view(texts@).take(i + 1)) =~= text_rows_of(
                sid,
                strs_view(texts@).take(i as int),
            ).push((sid, texts@[i as int]@)));
            assert(irows_view(rows@) =~= orig + text_rows_of(
                sid,
                strs_view(texts@).take(i + 1),
            ));
        }
        i += 1;
    }
    proof {
        assert(strs_view(texts@).take(texts@.len() as int) =~= strs_view(texts@));
    }
}

fn append_file_rows(rows: &mut Vec<FileRow>, sid: i64, texts: &Vec<String>)
    ensures
        frows_view(final(rows)@) == frows_view(old(rows)@) + text_rows_of(sid, strs_view(texts@)),
{
    let ghost orig = frows_view(rows@);
    let mut i: usize = 0;
    proof {
        assert(text_rows_of(sid, strs_view(texts@).take(0)) =~= Seq::<(i64, Seq<char>)>::empty());
        assert(frows_view(rows@) =~= orig + text_rows_of(sid, strs_view(texts@).take(0)));
    }
    while i < texts.len()
        invariant
            i <= texts@.len(),
            orig == frows_view(old(rows)@),
            frows_view(rows@) == orig + text_rows_of(sid, strs_view(texts@).take(i as int)),
        decreases texts@.len() - i,
    {
        let ghost prev = rows@;
        rows.push(FileRow { session_id: sid, file_path: texts[i].clone() });
        proof {
            assert(frows_view(rows@) =~= frows_view(prev).push((sid, texts@[i as int]@)));
            assert(strs_view(texts@).take(i + 1) =~= strs_view(texts@).take(i as int).push(
                texts@[i as int]@,
            ));
            assert(text_rows_of(sid, strs_view(texts@).take(i + 1)) =~= text_rows_of(
                sid,
                strs_view(texts@).take(i as int),
            ).push((sid, texts@[i as int]@)));
            assert(frows_view(rows@) =~= orig + text_rows_of(
                sid,
                strs_view(texts@).take(i + 1),
            ));
        }
        i += 1;
    }
    proof {
        assert(strs_view(texts@).take(texts@.len() as int) =~= strs_view(texts@));
    }
}

fn append_tool_rows(rows: &mut Vec<ToolRow>, sid: i64, tools: &Vec<ToolUsage>)
    ensures
        trows_view(final(rows)@) == trows_view(old(rows)@) + tool_rows_of(
            sid,
            tools_view(tools@),
        ),
{
    let ghost orig = trows_view(rows@);
    let mut i: usize = 0;
    proof {
        assert(tool_rows_of(sid, tools_view(tools@).take(0)) =~= Seq::<(i64, Seq<char>, u32)>::empty());
        assert(trows_view(rows@) =~= orig + tool_rows_of(sid, tools_view(tools@).take(0)));
    }
    while i < tools.len()
        invariant
            i <= tools@.len(),
            orig == trows_view(old(rows)@),
            trows_view(rows@) == orig + tool_rows_of(sid, tools_view(tools@).take(i as int)),
        decreases tools@.len() - i,
    {
        let ghost prev = rows@;
        rows.push(
            ToolRow { session_id: sid, tool_name: tools[i].tool_name.clone(), count: tools[i].count },
        );
        proof {
            assert(trows_view(rows@) =~= trows_view(prev).push(
                (sid, tools@[i as int].tool_name@, tools@[i as int].count),
            ));
            assert(tools_view(tools@).take(i + 1) =~= tools_view(tools@).take(i as int).push(
                (tools@[i as int].tool_name@, tools@[i as int].count),
            ));
            assert(tool_rows_of(sid, tools_view(tools@).take(i + 1)) =~= tool_rows_of(
                sid,
                tools_view(tools@).take(i as int),
            ).push((sid, tools@[i as int].tool_name@, tools@[i as int].count)));
            assert(trows_view(rows@) =~= orig + tool_rows_of(
                sid,
                tools_view(tools@).take(i + 1),
            ));
        }
        i += 1;
    }
    proof {
        assert(tools_view(tools@).take(tools@.len() as int) =~= tools_view(tools@));
    }
}

impl Store {
    /// Executes one incremental save against the model: updates the session
    /// row's duration, inserts the planned new accomplishments and
    /// objectives, and upserts every tool count. Issues and modified files
    /// are untouched.
    pub fn apply_incremental(&mut self, plan: &IncrementalPlan)
        ensures
            srows_view(final(self).sessions@) == upd_duration(
                srows_view(old(self).sessions@),
                plan.session_id,
                plan.total_duration_ms,
            ),
            arows_view(final(self).accomplishments@) == arows_view(old(self).accomplishments@)
                + acc_rows_of(plan.session_id, accs_view(plan.new_accomplishments@)),
            orows_view(final(self).objectives@) == orows_view(old(self).objectives@)
                + text_rows_of(plan.session_id, strs_view(plan.new_objectives@)),
            trows_view(final(self).tool_usage@) == upsert_all(
                trows_view(old(self).tool_usage@),
                plan.session_id,
                tools_view(plan.tool_counts@),
            ),
            final(self).issues@ == old(self).issues@,
            final(self).files_modified@ == old(self).files_modified@,
    {
        let sid = plan.session_id;
        let ghost sorig = srows_view(self.sessions@);
        let mut i: usize = 0;
        while i < self.sessions.len()
            invariant
                i <= self.sessions@.len(),
                sorig.len() == self.sessions@.len(),
                forall|t: int|
                    i <= t < sorig.len() ==> srow_view(#[trigger] self.sessions@[t]) == sorig[t],
                forall|t: int|
                    0 <= t < i ==> srow_view(#[trigger] self.sessions@[t]) == (if sorig[t].0 == sid {
                        (sorig[t].0, sorig[t].1, sorig[t].2, plan.total_duration_ms)
                    } else {
                        sorig[t]
                    }),
                self.accomplishments@ == old(self).accomplishments@,
                self.objectives@ == old(self).objectives@,
                self.issues@ == old(self).issues@,
                self.tool_usage@ == old(self).tool_usage@,
                self.files_modified@ == old(self).files_modified@,
            decreases self.sessions@.len() - i,
        {
            if self.sessions[i].id == sid {
                let row = self.sessions.remove(i);
                self.sessions.insert(
                    i,
                    SessionRow {
                        id: row.id,
                        start_time: row.start_time,
                        end_time: row.end_time,
                        total_duration_ms: plan.total_duration_ms,
                    },
                );
            }
            i += 1;
        }
        proof {
            assert(srows_view(self.sessions@) =~= upd_duration(
                sorig,
                sid,
                plan.total_duration_ms,
            ));
        }
        append_acc_rows(&mut self.accomplishments, sid, &plan.new_accomplishments);
        append_objective_rows(&mut self.objectives, sid, &plan.new_objectives);
        let mut j: usize = 0;
        let ghost torig = trows_view(self.tool_usage@);
        let ghost toolsv = tools_view(plan.tool_counts@);
        let ghost ses_mid = self.sessions@;
        let ghost accs_mid = self.accomplishments@;
        let ghost objs_mid = self.objectives@;
        proof {
            assert(toolsv.skip(0) =~= toolsv);
        }
        while j < plan.tool_counts.len()
            invariant
                j <= plan.tool_counts@.len(),
                toolsv == tools_view(plan.tool_counts@),
                self.sessions@ == ses_mid,
                self.accomplishments@ == accs_mid,
                self.objectives@ == objs_mid,
                self.issues@ == old(self).issues@,
                self.files_modified@ == old(self).files_modified@,
                upsert_all(torig, sid, toolsv) == upsert_all(
                    trows_view(self.tool_usage@),
                    sid,
                    toolsv.skip(j as int),
                ),
            decreases plan.tool_counts@.len() - j,
        {
            proof {
                assert(toolsv.skip(j as int)[0] == toolsv[j as int]);
                assert(toolsv[j as int] == (plan.tool_counts@[j as int].tool_name@,
                    plan.tool_counts@[j as int].count));
                assert(toolsv.skip(j as int).drop_first() =~= toolsv.skip(j + 1));
            }
            upsert_tool_row(
                &mut self.tool_usage,
                sid,
                plan.tool_counts[j].tool_name.as_str(),
                plan.tool_counts[j].count,
            );
            j += 1;
        }
        proof {
            assert(toolsv.skip(toolsv.len() as int) =~= Seq::<(Seq<char>, u32)>::empty());
        }
    }

    /// Executes the authoritative finalization against the model: stamps the
    /// session row's end time and final duration, then plainly inserts every
    /// accomplishment, objective, issue, tool count and deduplicated file.
    pub fn apply_final(&mut self, plan: &FinalPlan)
        ensures
            srows_view(final(self).sessions@) == upd_end(
                srows_view(old(self).sessions@),
                plan.session_id,
                opt_view(plan.end_time),
                plan.total_duration_ms,
            ),
            arows_view(final(self).accomplishments@) == arows_view(old(self).accomplishments@)
                + acc_rows_of(plan.session_id, accs_view(plan.accomplishments@)),
            orows_view(final(self).objectives@) == orows_view(old(self).objectives@)
                + text_rows_of(plan.session_id, strs_view(plan.objectives@)),
            irows_view(final(self).issues@) == irows_view(old(self).issues@) + text_rows_of(
                plan.session_id,
                strs_view(plan.issues@),
            ),
            trows_view(final(self).tool_usage@) == trows_view(old(self).tool_usage@)
                + tool_rows_of(plan.session_id, tools_view(plan.tool_counts@)),
            frows_view(final(self).files_modified@) == frows_view(old(self).files_modified@)
                + text_rows_of(plan.session_id, strs_view(plan.files@)),
    {
        let sid = plan.session_id;
        let ghost sorig = srows_view(self.sessions@);
        let mut i: usize = 0;
        while i < self.sessions.len()
            invariant
                i <= self.sessions@.len(),
                sorig.len() == self.sessions@.len(),
                forall|t: int|
                    i <= t < sorig.len() ==> srow_view(#[trigger] self.sessions@[t]) == sorig[t],
                forall|t: int|
                    0 <= t < i ==> srow_view(#[trigger] self.sessions@[t]) == (if sorig[t].0 == sid {
                        (sorig[t].0, sorig[t].1, opt_view(plan.end_time), plan.total_duration_ms)
                    } else {
                        sorig[t]
                    }),
                self.accomplishments@ == old(self).accomplishments@,
                self.objectives@ == old(self).objectives@,
                self.issues@ == old(self).issues@,
                self.tool_usage@ == old(self).tool_usage@,
                self.files_modified@ == old(self).files_modified@,
            decreases self.sessions@.len() - i,
        {
            if self.sessions[i].id == sid {
                let row = self.sessions.remove(i);
                let end: Option<String> = match &plan.end_time {
                    Some(t) => Some(t.clone()),
                    None => None,
                };
                self.sessions.insert(
                    i,
                    SessionRow {
                        id: row.id,
                        start_time: row.start_time,
                        end_time: end,
                        total_duration_ms: plan.total_duration_ms,
                    },
                );
            }
            i += 1;
        }
        proof {
            assert(srows_view(self.sessions@) =~= upd_end(
                sorig,
                sid,
                opt_view(plan.end_time),
                plan.total_duration_ms,
            ));
        }
        append_acc_rows(&mut self.accomplishments, sid, &plan.accomplishments);
        append_objective_rows(&mut self.objectives, sid, &plan.objectives);
        append_issue_rows(&mut self.issues, sid, &plan.issues);
        append_tool_rows(&mut self.tool_usage, sid, &plan.tool_counts);
        append_file_rows(&mut self.files_modified, sid, &plan.files);
    }
}

// ------------------------------------------------------------------
// The laws of the persistence strategy
// ------------------------------------------------------------------
proof fn lemma_contains_concat(a: Seq<Seq<char>>, b: Seq<Seq<char>>, x: Seq<char>)
    ensures
        (a + b).contains(x) <==> a.contains(x) || b.contains(x),
{
    if a.contains(x) {
        let i = choose|i: int| 0 <= i < a.len() && a[i] == x;
        assert((a + b)[i] == x);
    }
    if b.contains(x) {
        let i = choose|i: int| 0 <= i < b.len() && b[i] == x;
        assert((a + b)[a.len() + i] == x);
    }
    if (a + b).contains(x) {
        let i = choose|i: int| 0 <= i < (a + b).len() && (a + b)[i] == x;
        if i < a.len() {
            assert(a[i] == x);
        } else {
            assert(b[i - a.len()] == x);
        }
    }
}

proof fn lemma_descs_for_append(rows: Seq<AccRowV>, more: Seq<AccRowV>, sid: i64)
    ensures
        descs_for(rows + more, sid) == descs_for(rows, sid) + descs_for(more, sid),
    decreases more.len(),
{
    if more.len() == 0 {
        assert(rows + more =~= rows);
        assert(descs_for(more, sid) =~= Seq::<Seq<char>>::empty());
        assert(descs_for(rows, sid) + descs_for(more, sid) =~= descs_for(rows, sid));
    } else {
        assert((rows + more).drop_last() =~= rows + more.drop_last());
        assert((rows + more).last() == more.last());
        lemma_descs_for_append(rows, more.drop_last(), sid);
        if more.last().session_id == sid {
            assert(descs_for(rows, sid) + (descs_for(more.drop_last(), sid) + seq![
                more.last().description,
            ]) =~= descs_for(rows, sid) + descs_for(more.drop_last(), sid) + seq![
                more.last().description,
            ]);
        } else {
            assert(descs_for(more, sid) =~= descs_for(more.drop_last(), sid));
        }
    }
}

proof fn lemma_texts_for_append(rows: Seq<(i64, Seq<char>)>, more: Seq<(i64, Seq<char>)>, sid: i64)
    ensures
        texts_for(rows + more, sid) == texts_for(rows, sid) + texts_for(more, sid),
    decreases more.len(),
{
    if more.len() == 0 {
        assert(rows + more =~= rows);
        assert(texts_for(more, sid) =~= Seq::<Seq<char>>::empty());
        assert(texts_for(rows, sid) + texts_for(more, sid) =~= texts_for(rows, sid));
    } else {
        assert((rows + more).drop_last() =~= rows + more.drop_last());
        assert((rows + more).last() == more.last());
        lemma_texts_for_append(rows, more.drop_last(), sid);
        if more.last().0 == sid {
            assert(texts_for(rows, sid) + (texts_for(more.drop_last(), sid) + seq![more.last().1])
                =~= texts_for(rows, sid) + texts_for(more.drop_last(), sid) + seq![more.last().1]);
        } else {
            assert(texts_for(more, sid) =~= texts_for(more.drop_last(), sid));
        }
    }
}

proof fn lemma_descs_of_acc_rows(sid: i64, accs: Seq<AccV>)
    ensures
        descs_for(acc_rows_of(sid, accs), sid) == descs_of(accs),
    decreases accs.len(),
{
    if accs.len() == 0 {
        assert(descs_for(acc_rows_of(sid, accs), sid) =~= descs_of(accs));
    } else {
        assert(acc_rows_of(sid, accs).drop_last() =~= acc_rows_of(sid, accs.drop_last()));
        assert(acc_rows_of(sid, accs).last() == acc_rows_of(sid, accs)[accs.len() - 1]);
        lemma_descs_of_acc_rows(sid, accs.drop_last());
        assert(descs_of(accs.drop_last()) =~= descs_of(accs).drop_last());
        assert(descs_for(acc_rows_of(sid, accs), sid) =~= descs_of(accs));
    }
}

proof fn lemma_texts_of_text_rows(sid: i64, texts: Seq<Seq<char>>)
    ensures
        texts_for(text_rows_of(sid, texts), sid) == texts,
    decreases texts.len(),
{
    if texts.len() == 0 {
        assert(texts_for(text_rows_of(sid, texts), sid) =~= texts);
    } else {
        assert(text_rows_of(sid, texts).drop_last() =~= text_rows_of(sid, texts.drop_last()));
        lemma_texts_of_text_rows(sid, texts.drop_last());
        assert(texts_for(text_rows_of(sid, texts), sid) =~= texts);
    }
}

proof fn lemma_new_accs_covers(mem: Seq<AccV>, seen: Seq<Seq<char>>)
    ensures
        forall|t: int|
            0 <= t < mem.len() ==> seen.contains(#[trigger] mem[t].description) || descs_of(
                new_accs(mem, seen),
            ).contains(mem[t].description),
    decreases mem.len(),
{
    if mem.len() > 0 {
        let d0 = mem[0].description;
        if seen.contains(d0) {
            lemma_new_accs_covers(mem.drop_first(), seen);
            assert forall|t: int|
                0 <= t < mem.len() implies seen.contains(#[trigger] mem[t].description)
                || descs_of(new_accs(mem, seen)).contains(mem[t].description) by {
                if t > 0 {
                    assert(mem.drop_first()[t - 1] == mem[t]);
                }
            }
        } else {
            let rest = new_accs(mem.drop_first(), seen.push(d0));
            assert(new_accs(mem, seen) == seq![mem[0]] + rest);
            assert(descs_of(seq![mem[0]] + rest) =~= seq![d0] + descs_of(rest));
            lemma_new_accs_covers(mem.drop_first(), seen.push(d0));
            assert forall|t: int|
                0 <= t < mem.len() implies seen.contains(#[trigger] mem[t].description)
                || descs_of(new_accs(mem, seen)).contains(mem[t].description) by {
                let d = mem[t].description;
                if t == 0 {
                    assert((seq![d0] + descs_of(rest))[0] == d0);
                    assert(descs_of(new_accs(mem, seen)).contains(d0));
                } else {
                    assert(mem.drop_first()[t - 1] == mem[t]);
                    if seen.push(d0).contains(d) {
                        let i = choose|i: int| 0 <= i < seen.push(d0).len() && seen.push(d0)[i] == d;
                        if i < seen.len() {
                            assert(seen[i] == d);
                        } else {
                            assert(d == d0);
                            assert((seq![d0] + descs_of(rest))[0] == d0);
                        }
                    } else {
                        assert(descs_of(rest).contains(d));
                        let i = choose|i: int| 0 <= i < descs_of(rest).len() && descs_of(rest)[i] == d;
                        assert((seq![d0] + descs_of(rest))[1 + i] == d);
                    }
                }
            }
        }
    }
}

proof fn lemma_new_accs_all_seen(mem: Seq<AccV>, seen: Seq<Seq<char>>)
    requires
        forall|t: int| 0 <= t < mem.len() ==> seen.contains(#[trigger] mem[t].description),
    ensures
        new_accs(mem, seen) == Seq::<AccV>::empty(),
    decreases mem.len(),
{
    if mem.len() > 0 {
        assert(seen.contains(mem[0].description));
        assert forall|t: int|
            0 <= t < mem.drop_first().len() implies seen.contains(
            #[trigger] mem.drop_first()[t].description,
        ) by {
            assert(mem.drop_first()[t] == mem[t + 1]);
        }
        lemma_new_accs_all_seen(mem.drop_first(), seen);
    }
}

proof fn lemma_new_texts_covers(mem: Seq<Seq<char>>, seen: Seq<Seq<char>>)
    ensures
        forall|t: int|
            0 <= t < mem.len() ==> seen.contains(#[trigger] mem[t]) || new_texts(
                mem,
                seen,
            ).contains(mem[t]),
    decreases mem.len(),
{
    if mem.len() > 0 {
        let d0 = mem[0];
        if seen.contains(d0) {
            lemma_new_texts_covers(mem.drop_first(), seen);
            assert forall|t: int|
                0 <= t < mem.len() implies seen.contains(#[trigger] mem[t]) || new_texts(
                mem,
                seen,
            ).contains(mem[t]) by {
                if t > 0 {
                    assert(mem.drop_first()[t - 1] == mem[t]);
                }
            }
        } else {
            let rest = new_texts(mem.drop_first(), seen.push(d0));
            assert(new_texts(mem, seen) == seq![d0] + rest);
            lemma_new_texts_covers(mem.drop_first(), seen.push(d0));
            assert forall|t: int|
                0 <= t < mem.len() implies seen.contains(#[trigger] mem[t]) || new_texts(
                mem,
                seen,
            ).contains(mem[t]) by {
                let d = mem[t];
                if t == 0 {
                    assert((seq![d0] + rest)[0] == d0);
                } else {
                    assert(mem.drop_first()[t - 1] == mem[t]);
                    if seen.push(d0).contains(d) {
                        let i = choose|i: int| 0 <= i < seen.push(d0).len() && seen.push(d0)[i] == d;
                        if i < seen.len() {
                            assert(seen[i] == d);
                        } else {
                            assert((seq![d0] + rest)[0] == d0);
                        }
                    } else {
                        let i = choose|i: int| 0 <= i < rest.len() && rest[i] == d;
                        assert((seq![d0] + rest)[1 + i] == d);
                    }
                }
            }
        }
    }
}

proof fn lemma_new_texts_all_seen(mem: Seq<Seq<char>>, seen: Seq<Seq<char>>)
    requires
        forall|t: int| 0 <= t < mem.len() ==> seen.contains(#[trigger] mem[t]),
    ensures
        new_texts(mem, seen) == Seq::<Seq<char>>::empty(),
    decreases mem.len(),
{
    if mem.len() > 0 {
        assert(seen.contains(mem[0]));
        assert forall|t: int|
            0 <= t < mem.drop_first().len() implies seen.contains(#[trigger] mem.drop_first()[t])
        by {
            assert(mem.drop_first()[t] == mem[t + 1]);
        }
        lemma_new_texts_all_seen(mem.drop_first(), seen);
    }
}

/// Idempotent incremental save. An incremental save plans its accomplishment
/// inserts against the descriptions already persisted for the session; once
/// those inserts stand in the table, planning the same in-memory list again
/// inserts nothing, so running the incremental save twice with no new events
/// in between leaves the accomplishment row count unchanged.
pub proof fn lemma_incremental_idempotent_accs(rows: Seq<AccRowV>, sid: i64, mem: Seq<AccV>)
    ensures
        ({
            let inserted = new_accs(mem, descs_for(rows, sid));
            let rows1 = rows + acc_rows_of(sid, inserted);
            new_accs(mem, descs_for(rows1, sid)) == Seq::<AccV>::empty()
        }),
{
    let seen1 = descs_for(rows, sid);
    let inserted = new_accs(mem, seen1);
    let rows1 = rows + acc_rows_of(sid, inserted);
    lemma_descs_for_append(rows, acc_rows_of(sid, inserted), sid);
    lemma_descs_of_acc_rows(sid, inserted);
    let seen2 = descs_for(rows1, sid);
    assert(seen2 == seen1 + descs_of(inserted));
    lemma_new_accs_covers(mem, seen1);
    assert forall|t: int| 0 <= t < mem.len() implies seen2.contains(#[trigger] mem[t].description)
    by {
        lemma_contains_concat(seen1, descs_of(inserted), mem[t].description);
    }
    lemma_new_accs_all_seen(mem, seen2);
}

/// Idempotent incremental save for objectives: the twin of
/// [`lemma_incremental_idempotent_accs`], over the objectives table.
pub proof fn lemma_incremental_idempotent_objectives(
    rows: Seq<(i64, Seq<char>)>,
    sid: i64,
    mem: Seq<Seq<char>>,
)
    ensures
        ({
            let inserted = new_texts(mem, texts_for(rows, sid));
            let rows1 = rows + text_rows_of(sid, inserted);
            new_texts(mem, texts_for(rows1, sid)) == Seq::<Seq<char>>::empty()
        }),
{
    let seen1 = texts_for(rows, sid);
    let inserted = new_texts(mem, seen1);
    let rows1 = rows + text_rows_of(sid, inserted);
    lemma_texts_for_append(rows, text_rows_of(sid, inserted), sid);
    lemma_texts_of_text_rows(sid, inserted);
    let seen2 = texts_for(rows1, sid);
    assert(seen2 == seen1 + inserted);
    lemma_new_texts_covers(mem, seen1);
    assert forall|t: int| 0 <= t < mem.len() implies seen2.contains(#[trigger] mem[t]) by {
        lemma_contains_concat(seen1, inserted, mem[t]);
    }
    lemma_new_texts_all_seen(mem, seen2);
}

/// Double finalization duplicates rows. Finalization inserts without any
/// existence check — it is the single authoritative write — so finalizing
/// the same session twice appends every accomplishment row a second time.
/// This is a deliberate sharp edge of the design: callers must finalize
/// exactly once.
pub proof fn lemma_double_finalize_duplicates(rows: Seq<AccRowV>, sid: i64, mem: Seq<AccV>)
    ensures
        ({
            let rows1 = rows + acc_rows_of(sid, mem);
            let rows2 = rows1 + acc_rows_of(sid, mem);
            rows2.len() == rows.len() + 2 * mem.len() && (forall|t: int|
                0 <= t < mem.len() ==> #[trigger] rows2[rows.len() + t] == rows2[rows.len()
                    + mem.len() + t])
        }),
{
    let rows1 = rows + acc_rows_of(sid, mem);
    let rows2 = rows1 + acc_rows_of(sid, mem);
    assert forall|t: int|
        0 <= t < mem.len() implies #[trigger] rows2[rows.len() + t] == rows2[rows.len() + mem.len()
        + t] by {
        assert(rows2[rows.len() + t] == rows1[rows.len() + t]);
        assert(rows1[rows.len() + t] == acc_rows_of(sid, mem)[t]);
        assert(rows2[rows1.len() + t] == acc_rows_of(sid, mem)[t]);
    }
}

/// Double finalization duplicates objective and issue rows just as it
/// duplicates accomplishment rows: each text row is appended a second time.
pub proof fn lemma_double_finalize_duplicates_texts(
    rows: Seq<(i64, Seq<char>)>,
    sid: i64,
    mem: Seq<Seq<char>>,
)
    ensures
        ({
            let rows1 = rows + text_rows_of(sid, mem);
            let rows2 = rows1 + text_rows_of(sid, mem);
            rows2.len() == rows.len() + 2 * mem.len() && (forall|t: int|
                0 <= t < mem.len() ==> #[trigger] rows2[rows.len() + t] == rows2[rows.len()
                    + mem.len() + t])
        }),
{
    let rows1 = rows + text_rows_of(sid, mem);
    let rows2 = rows1 + text_rows_of(sid, mem);
    assert forall|t: int|
        0 <= t < mem.len() implies #[trigger] rows2[rows.len() + t] == rows2[rows.len() + mem.len()
        + t] by {
        assert(rows2[rows.len() + t] == rows1[rows.len() + t]);
        assert(rows1[rows.len() + t] == text_rows_of(sid, mem)[t]);
        assert(rows2[rows1.len() + t] == text_rows_of(sid, mem)[t]);
    }
}

} // verus!
