//! Tests for the accumulator, the persistence plans against the store model,
//! and the report content.

use session_diary::classify::Category;
use session_diary::report::report_content;
use session_diary::session::{DiarySession, Event, EventKind, SaveAction, ToolCallRecord, kind_of};
use session_diary::store::{finalize_plan, incremental_plan, Store};

fn empty_event(kind: EventKind) -> Event {
    Event {
        kind,
        timestamp: None,
        session_id: None,
        user_prompt: None,
        assistant_response: None,
        tool_calls: None,
        duration_ms: None,
        error: None,
    }
}

fn prompt_event(text: &str) -> Event {
    let mut e = empty_event(EventKind::UserPrompt);
    e.user_prompt = Some(text.to_string());
    e
}

fn tool_event(tool: &str, file: Option<&str>, duration: Option<u64>) -> Event {
    let mut e = empty_event(EventKind::ToolCall);
    e.duration_ms = duration;
    e.tool_calls = Some(vec![ToolCallRecord {
        tool_name: tool.to_string(),
        file_path: file.map(|f| f.to_string()),
        result: None,
        duration_ms: duration,
        success: Some(true),
    }]);
    e
}

#[test]
fn kind_of_tags() {
    assert_eq!(kind_of("session_start"), EventKind::SessionStart);
    assert_eq!(kind_of("user_prompt"), EventKind::UserPrompt);
    assert_eq!(kind_of("message"), EventKind::Message);
    assert_eq!(kind_of("tool_call"), EventKind::ToolCall);
    assert_eq!(kind_of("tool_result"), EventKind::ToolResult);
    assert_eq!(kind_of("error"), EventKind::Error);
    assert_eq!(kind_of("session_end"), EventKind::SessionEnd);
    assert_eq!(kind_of("banana"), EventKind::Other);
}

#[test]
fn fallback_event_keeps_the_line() {
    let e = Event::fallback("not json at all".to_string(), "t1".to_string());
    assert_eq!(e.kind, EventKind::Message);
    assert_eq!(e.user_prompt.as_deref(), Some("not json at all"));
    assert_eq!(e.timestamp.as_deref(), Some("t1"));
    assert!(e.tool_calls.is_none());
}

#[test]
fn end_to_end_two_lines() {
    // One prompt, then an explicit session end.
    let mut s = DiarySession::new("2024-05-01T10:00:00Z".to_string());
    let a = s.process_event(&prompt_event("Fix the bug in parser.go"), "t1");
    assert_eq!(a, SaveAction::Incremental);
    let b = s.process_event(&empty_event(EventKind::SessionEnd), "t2");
    assert_eq!(b, SaveAction::Finalize);

    assert_eq!(s.objectives, vec!["Fix the bug in parser.go".to_string()]);
    assert_eq!(s.accomplishments.len(), 1);
    assert_eq!(s.accomplishments[0].category, Category::CodeDevelopment);
    assert!(s.accomplishments[0].description.starts_with("Fixed code issues:"));
    assert_eq!(s.end_time.as_deref(), Some("t2"));
    assert!(s.issues.is_empty());

    // Finalize into the store model: the session row gets its end time and
    // no issue row exists.
    let mut store = Store::new();
    let sid = store.create_session("2024-05-01T10:00:00Z".to_string());
    let plan = finalize_plan(&s, sid);
    store.apply_final(&plan);
    assert_eq!(store.sessions.len(), 1);
    assert!(store.sessions[0].end_time.is_some());
    assert_eq!(store.issues.len(), 0);
    assert_eq!(store.accomplishments.len(), 1);
    assert_eq!(store.objectives.len(), 1);
}

#[test]
fn duration_accumulates_exactly() {
    let mut s = DiarySession::new("t0".to_string());
    s.process_event(&tool_event("Bash", None, Some(120)), "t1");
    s.process_event(&tool_event("Bash", None, Some(380)), "t2");
    assert_eq!(s.total_duration_ms, 500);
}

#[test]
fn duration_accumulates_in_either_order() {
    let mut a = DiarySession::new("t0".to_string());
    a.process_event(&tool_event("Bash", None, Some(120)), "t1");
    a.process_event(&tool_event("Read", None, Some(380)), "t2");
    let mut b = DiarySession::new("t0".to_string());
    b.process_event(&tool_event("Read", None, Some(380)), "t1");
    b.process_event(&tool_event("Bash", None, Some(120)), "t2");
    assert_eq!(a.total_duration_ms, 500);
    assert_eq!(b.total_duration_ms, 500);
}

#[test]
fn tool_counts_accumulate() {
    let mut s = DiarySession::new("t0".to_string());
    s.process_event(&tool_event("Bash", None, None), "t1");
    s.process_event(&tool_event("Bash", None, None), "t2");
    s.process_event(&tool_event("Read", None, None), "t3");
    assert_eq!(s.tool_usage.len(), 2);
    assert_eq!(s.tool_usage[0].tool_name, "Bash");
    assert_eq!(s.tool_usage[0].count, 2);
    assert_eq!(s.tool_usage[1].tool_name, "Read");
    assert_eq!(s.tool_usage[1].count, 1);
}

#[test]
fn tool_call_with_file_path() {
    let mut s = DiarySession::new("t0".to_string());
    s.process_event(&tool_event("Edit", Some("src/a.rs"), Some(40)), "t1");
    assert_eq!(s.accomplishments.len(), 1);
    let acc = &s.accomplishments[0];
    assert_eq!(acc.category, Category::CodeDevelopment);
    assert_eq!(acc.description, "Modified src/a.rs");
    assert_eq!(acc.files_affected, vec!["src/a.rs".to_string()]);
    assert_eq!(s.files_modified, vec!["src/a.rs".to_string()]);
}

#[test]
fn tool_call_without_file_path() {
    let mut s = DiarySession::new("t0".to_string());
    s.process_event(&tool_event("Grep", None, None), "t1");
    assert_eq!(s.accomplishments[0].description, "Used Grep tool");
    assert_eq!(s.accomplishments[0].category, Category::CodeSearch);
    assert!(s.files_modified.is_empty());
}

#[test]
fn error_event_records_issue() {
    let mut s = DiarySession::new("t0".to_string());
    let mut e = empty_event(EventKind::Error);
    e.error = Some("disk on fire".to_string());
    s.process_event(&e, "t1");
    assert_eq!(s.issues, vec!["Error encountered: disk on fire".to_string()]);
}

#[test]
fn generic_event_long_response() {
    let mut s = DiarySession::new("t0".to_string());
    let mut e = empty_event(EventKind::Other);
    e.assistant_response = Some("r".repeat(51));
    s.process_event(&e, "t1");
    assert_eq!(s.accomplishments.len(), 1);
    assert_eq!(s.accomplishments[0].category, Category::Analysis);
    assert_eq!(s.accomplishments[0].description, "Analysis and response provided");
}

#[test]
fn generic_event_short_response_ignored() {
    let mut s = DiarySession::new("t0".to_string());
    let mut e = empty_event(EventKind::Other);
    e.assistant_response = Some("r".repeat(50));
    s.process_event(&e, "t1");
    assert!(s.accomplishments.is_empty());
}

#[test]
fn end_time_set_at_most_once() {
    let mut s = DiarySession::new("t0".to_string());
    s.process_event(&empty_event(EventKind::SessionEnd), "t1");
    s.process_event(&empty_event(EventKind::SessionEnd), "t2");
    assert_eq!(s.end_time.as_deref(), Some("t1"));
}

#[test]
fn objective_truncated_to_100_chars() {
    let mut s = DiarySession::new("t0".to_string());
    let long = "fix ".to_string() + &"y".repeat(120);
    s.process_event(&prompt_event(&long), "t1");
    let expected: String = long.chars().take(100).collect();
    assert_eq!(s.objectives, vec![expected]);
}

#[test]
fn incremental_save_is_idempotent() {
    let mut s = DiarySession::new("t0".to_string());
    s.process_event(&prompt_event("fix the parser bug"), "t1");
    s.process_event(&prompt_event("document the design choices"), "t2");
    s.process_event(&tool_event("Edit", Some("src/a.rs"), Some(10)), "t3");

    let mut store = Store::new();
    let sid = store.create_session("t0".to_string());

    let descs = store.acc_descs_for(sid);
    let objs = store.objectives_for(sid);
    let plan = incremental_plan(&s, sid, &descs, &objs);
    store.apply_incremental(&plan);
    let accs_after_first = store.accomplishments.len();
    let objs_after_first = store.objectives.len();
    assert_eq!(accs_after_first, 3);
    assert_eq!(objs_after_first, 2);

    // No new events: a second incremental save must change no row counts.
    let descs2 = store.acc_descs_for(sid);
    let objs2 = store.objectives_for(sid);
    let plan2 = incremental_plan(&s, sid, &descs2, &objs2);
    assert!(plan2.new_accomplishments.is_empty());
    assert!(plan2.new_objectives.is_empty());
    store.apply_incremental(&plan2);
    assert_eq!(store.accomplishments.len(), accs_after_first);
    assert_eq!(store.objectives.len(), objs_after_first);
}

#[test]
fn duplicate_prompt_lines_persist_once() {
    // The same prompt arriving twice piles up in memory, but the existence
    // check by exact text keeps the persisted rows single.
    let mut s = DiarySession::new("t0".to_string());
    s.process_event(&prompt_event("fix the parser bug"), "t1");
    s.process_event(&prompt_event("fix the parser bug"), "t2");
    assert_eq!(s.accomplishments.len(), 2);
    assert_eq!(s.objectives.len(), 2);

    let mut store = Store::new();
    let sid = store.create_session("t0".to_string());
    let plan = incremental_plan(&s, sid, &store.acc_descs_for(sid), &store.objectives_for(sid));
    store.apply_incremental(&plan);
    assert_eq!(store.accomplishments.len(), 1);
    assert_eq!(store.objectives.len(), 1);
}

#[test]
fn incremental_save_upserts_tool_counts() {
    let mut s = DiarySession::new("t0".to_string());
    s.process_event(&tool_event("Bash", None, None), "t1");

    let mut store = Store::new();
    let sid = store.create_session("t0".to_string());
    let plan = incremental_plan(&s, sid, &store.acc_descs_for(sid), &store.objectives_for(sid));
    store.apply_incremental(&plan);
    assert_eq!(store.tool_usage.len(), 1);
    assert_eq!(store.tool_usage[0].count, 1);

    s.process_event(&tool_event("Bash", None, None), "t2");
    let plan2 = incremental_plan(&s, sid, &store.acc_descs_for(sid), &store.objectives_for(sid));
    store.apply_incremental(&plan2);
    // Replace-on-conflict keyed by (session, tool): still one row, count 2.
    assert_eq!(store.tool_usage.len(), 1);
    assert_eq!(store.tool_usage[0].count, 2);
}

#[test]
fn double_finalization_duplicates_rows() {
    // Finalization inserts without existence checks: finalizing the same
    // session twice is expected (if undesirable) to duplicate rows. This
    // documents the sharp edge; callers must finalize exactly once.
    let mut s = DiarySession::new("t0".to_string());
    s.process_event(&prompt_event("fix the parser bug"), "t1");
    let mut e = empty_event(EventKind::Error);
    e.error = Some("boom".to_string());
    s.process_event(&e, "t2");
    s.process_event(&tool_event("Bash", None, None), "t3");
    s.process_event(&empty_event(EventKind::SessionEnd), "t4");

    let mut store = Store::new();
    let sid = store.create_session("t0".to_string());
    let plan = finalize_plan(&s, sid);
    store.apply_final(&plan);
    let (a1, o1, i1, t1) = (
        store.accomplishments.len(),
        store.objectives.len(),
        store.issues.len(),
        store.tool_usage.len(),
    );
    store.apply_final(&plan);
    assert_eq!(store.accomplishments.len(), 2 * a1);
    assert_eq!(store.objectives.len(), 2 * o1);
    assert_eq!(store.issues.len(), 2 * i1);
    assert_eq!(store.tool_usage.len(), 2 * t1);
    assert_eq!(store.objectives[0].objective, store.objectives[o1].objective);
}

#[test]
fn finalize_plan_dedupes_and_sorts_files() {
    let mut s = DiarySession::new("t0".to_string());
    s.process_event(&tool_event("Edit", Some("b.rs"), None), "t1");
    s.process_event(&tool_event("Edit", Some("a.rs"), None), "t2");
    s.process_event(&tool_event("Edit", Some("b.rs"), None), "t3");
    let plan = finalize_plan(&s, 1);
    assert_eq!(plan.files, vec!["a.rs".to_string(), "b.rs".to_string()]);
}

#[test]
fn session_handle_cached_once() {
    let mut s = DiarySession::new("t0".to_string());
    assert!(s.handle.is_none());
    s.set_handle(7);
    assert_eq!(s.handle, Some(7));
}

#[test]
fn report_groups_by_first_occurrence() {
    let mut s = DiarySession::new("t0".to_string());
    s.process_event(&tool_event("Bash", None, Some(60000)), "t1");
    s.process_event(&prompt_event("fix the parser bug"), "t2");
    s.process_event(&tool_event("Bash", None, Some(60000)), "t3");
    let r = report_content(&s);
    assert_eq!(r.duration_minutes, 2);
    let cats: Vec<Category> = r.groups.iter().map(|g| g.category).collect();
    assert_eq!(cats, vec![Category::SystemOperations, Category::CodeDevelopment]);
    assert_eq!(r.groups[0].items.len(), 2);
    assert_eq!(r.groups[1].items.len(), 1);
}

#[test]
fn report_sub_minute_marker() {
    let mut s = DiarySession::new("t0".to_string());
    s.process_event(&tool_event("Bash", None, Some(59999)), "t1");
    let r = report_content(&s);
    assert_eq!(r.duration_minutes, 0);
}

#[test]
fn report_carries_sections() {
    let mut s = DiarySession::new("t0".to_string());
    s.process_event(&prompt_event("fix src/z.rs and src/a.rs"), "t1");
    let mut e = empty_event(EventKind::Error);
    e.error = Some("oops".to_string());
    s.process_event(&e, "t2");
    s.process_event(&tool_event("Edit", Some("src/z.rs"), None), "t3");
    let r = report_content(&s);
    assert_eq!(r.objectives, vec!["fix src/z.rs and src/a.rs".to_string()]);
    assert_eq!(r.issues, vec!["Error encountered: oops".to_string()]);
    assert_eq!(r.tools.len(), 1);
    assert_eq!(r.files, vec!["src/z.rs".to_string()]);
}

#[test]
fn duration_saturates_at_the_top() {
    let mut s = DiarySession::new("t0".to_string());
    s.process_event(&tool_event("Bash", None, Some(u64::MAX)), "t1");
    s.process_event(&tool_event("Bash", None, Some(7)), "t2");
    assert_eq!(s.total_duration_ms, u64::MAX);
}

#[test]
fn one_event_many_tool_calls() {
    // The at-most-one cap is per prompt, not per tool batch: every record
    // yields one accomplishment.
    let mut e = empty_event(EventKind::ToolCall);
    e.tool_calls = Some(vec![
        ToolCallRecord {
            tool_name: "Edit".to_string(),
            file_path: Some("a.rs".to_string()),
            result: None,
            duration_ms: Some(5),
            success: Some(true),
        },
        ToolCallRecord {
            tool_name: "Edit".to_string(),
            file_path: Some("b.rs".to_string()),
            result: None,
            duration_ms: Some(6),
            success: Some(true),
        },
        ToolCallRecord {
            tool_name: "Bash".to_string(),
            file_path: None,
            result: None,
            duration_ms: None,
            success: None,
        },
    ]);
    let mut s = DiarySession::new("t0".to_string());
    s.process_event(&e, "t1");
    assert_eq!(s.accomplishments.len(), 3);
    assert_eq!(s.files_modified, vec!["a.rs".to_string(), "b.rs".to_string()]);
    assert_eq!(s.tool_usage.len(), 2);
    assert_eq!(s.tool_usage[0].tool_name, "Edit");
    assert_eq!(s.tool_usage[0].count, 2);
}

#[test]
fn prompt_with_two_keyword_groups_one_entry() {
    // Category precedence through the accumulator: one accomplishment, the
    // earlier pattern's category.
    let mut s = DiarySession::new("t0".to_string());
    s.process_event(&prompt_event("fix and document the parser"), "t1");
    assert_eq!(s.accomplishments.len(), 1);
    assert_eq!(s.accomplishments[0].category, Category::CodeDevelopment);
}

#[test]
fn unicode_prompt_truncates_by_characters() {
    let mut s = DiarySession::new("t0".to_string());
    let prompt = "fix ".to_string() + &"é".repeat(120);
    s.process_event(&prompt_event(&prompt), "t1");
    assert_eq!(s.objectives[0].chars().count(), 100);
    let desc = &s.accomplishments[0].description;
    // "Fixed code issues: " plus the first 77 characters of the line.
    assert_eq!(desc.chars().count(), 19 + 77);
}

#[test]
fn empty_prompt_yields_objective_only() {
    let mut s = DiarySession::new("t0".to_string());
    s.process_event(&prompt_event(""), "t1");
    assert_eq!(s.objectives, vec!["".to_string()]);
    assert!(s.accomplishments.is_empty());
}
