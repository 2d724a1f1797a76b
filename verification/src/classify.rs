//! The heuristic classifier: maps free prompt text and tool-call data
//! deterministically to a category, a human-readable description and a list of
//! referenced file paths.

use vstd::prelude::*;
use vstd::string::*;

use crate::text::{spec_contains, spec_first_line, spec_trim, str_contains, str_eq};

verus! {

/// The fixed, closed set of activity categories.
#[derive(Clone, Copy, Debug, PartialEq, Eq, Structural)]
pub enum Category {
    CodeDevelopment,
    Documentation,
    Analysis,
    CodeSearch,
    CodeReview,
    SystemOperations,
    DatabaseOperations,
    FrontendDevelopment,
    Planning,
    ProjectManagement,
    General,
    CodeAnalysis,
    AiCollaboration,
    Research,
    Other,
}

/// The human-readable name of a category, as it is persisted and reported.
pub open spec fn spec_category_name(c: Category) -> Seq<char> {
    match c {
        Category::CodeDevelopment => "Code Development"@,
        Category::Documentation => "Documentation"@,
        Category::Analysis => "Analysis"@,
        Category::CodeSearch => "Code Search"@,
        Category::CodeReview => "Code Review"@,
        Category::SystemOperations => "System Operations"@,
        Category::DatabaseOperations => "Database Operations"@,
        Category::FrontendDevelopment => "Frontend Development"@,
        Category::Planning => "Planning"@,
        Category::ProjectManagement => "Project Management"@,
        Category::General => "General"@,
        Category::CodeAnalysis => "Code Analysis"@,
        Category::AiCollaboration => "AI Collaboration"@,
        Category::Research => "Research"@,
        Category::Other => "Other"@,
    }
}

/// Runtime rendering of [`spec_category_name`].
pub fn category_name(c: Category) -> (r: String)
    ensures
        r@ == spec_category_name(c),
{
    match c {
        Category::CodeDevelopment => "Code Development".to_owned(),
        Category::Documentation => "Documentation".to_owned(),
        Category::Analysis => "Analysis".to_owned(),
        Category::CodeSearch => "Code Search".to_owned(),
        Category::CodeReview => "Code Review".to_owned(),
        Category::SystemOperations => "System Operations".to_owned(),
        Category::DatabaseOperations => "Database Operations".to_owned(),
        Category::FrontendDevelopment => "Frontend Development".to_owned(),
        Category::Planning => "Planning".to_owned(),
        Category::ProjectManagement => "Project Management".to_owned(),
        Category::General => "General".to_owned(),
        Category::CodeAnalysis => "Code Analysis".to_owned(),
        Category::AiCollaboration => "AI Collaboration".to_owned(),
        Category::Research => "Research".to_owned(),
        Category::Other => "Other".to_owned(),
    }
}

/// One categorized, described unit of completed work inferred from an event.
pub struct Accomplishment {
    pub category: Category,
    pub description: String,
    pub duration_ms: Option<u64>,
    pub files_affected: Vec<String>,
}

impl Accomplishment {
    /// A field-preserving copy, usable where contracts must track contents.
    pub fn duplicate(&self) -> (r: Self)
        ensures
            r.category == self.category,
            r.description@ == self.description@,
            r.duration_ms == self.duration_ms,
            r.files_affected@.len() == self.files_affected@.len(),
            forall|i: int|
                0 <= i < self.files_affected@.len() ==> r.files_affected@[i]@
                    == self.files_affected@[i]@,
    {
        let mut files: Vec<String> = Vec::new();
        let mut i: usize = 0;
        while i < self.files_affected.len()
            invariant
                i <= self.files_affected@.len(),
                files@.len() == i,
                forall|j: int| 0 <= j < i ==> files@[j]@ == self.files_affected@[j]@,
            decreases self.files_affected@.len() - i,
        {
            files.push(self.files_affected[i].clone());
            i += 1;
        }
        Accomplishment {
            category: self.category,
            description: self.description.clone(),
            duration_ms: self.duration_ms,
            files_affected: files,
        }
    }
}

/// Number of keyword patterns in the precedence table.
pub open spec fn pattern_count() -> int {
    15
}

/// Does pattern `k` of the precedence table match the lower-cased prompt?
/// A pattern matches when any of its keywords occurs as a substring.
pub open spec fn pattern_matches(lower: Seq<char>, k: int) -> bool {
    if k == 0 {
        spec_contains(lower, "write"@) || spec_contains(lower, "create"@) || spec_contains(
            lower,
            "implement"@,
        ) || spec_contains(lower, "add"@) || spec_contains(lower, "build"@) || spec_contains(
            lower,
            "develop"@,
        ) || spec_contains(lower, "code"@) || spec_contains(lower, "program"@)
    } else if k == 1 {
        spec_contains(lower, "fix"@) || spec_contains(lower, "debug"@) || spec_contains(
            lower,
            "resolve"@,
        ) || spec_contains(lower, "solve"@) || spec_contains(lower, "repair"@) || spec_contains(
            lower,
            "correct"@,
        )
    } else if k == 2 {
        spec_contains(lower, "refactor"@) || spec_contains(lower, "optimize"@) || spec_contains(
            lower,
            "improve"@,
        ) || spec_contains(lower, "enhance"@) || spec_contains(lower, "update"@)
    } else if k == 3 {
        spec_contains(lower, "test"@) || spec_contains(lower, "unit test"@) || spec_contains(
            lower,
            "integration test"@,
        )
    } else if k == 4 {
        spec_contains(lower, "document"@) || spec_contains(lower, "write docs"@) || spec_contains(
            lower,
            "readme"@,
        ) || spec_contains(lower, "comment"@) || spec_contains(lower, "explain"@)
    } else if k == 5 {
        spec_contains(lower, "analyze"@) || spec_contains(lower, "investigate"@) || spec_contains(
            lower,
            "research"@,
        ) || spec_contains(lower, "study"@) || spec_contains(lower, "examine"@) || spec_contains(
            lower,
            "explore"@,
        ) || spec_contains(lower, "understand"@)
    } else if k == 6 {
        spec_contains(lower, "find"@) || spec_contains(lower, "search"@) || spec_contains(
            lower,
            "look for"@,
        ) || spec_contains(lower, "locate"@)
    } else if k == 7 {
        spec_contains(lower, "review"@) || spec_contains(lower, "check"@) || spec_contains(
            lower,
            "verify"@,
        ) || spec_contains(lower, "validate"@)
    } else if k == 8 {
        spec_contains(lower, "configure"@) || spec_contains(lower, "setup"@) || spec_contains(
            lower,
            "install"@,
        ) || spec_contains(lower, "deploy"@) || spec_contains(lower, "initialize"@)
    } else if k == 9 {
        spec_contains(lower, "migrate"@) || spec_contains(lower, "upgrade"@) || spec_contains(
            lower,
            "update dependencies"@,
        )
    } else if k == 10 {
        spec_contains(lower, "database"@) || spec_contains(lower, "sql"@) || spec_contains(
            lower,
            "query"@,
        ) || spec_contains(lower, "schema"@) || spec_contains(lower, "migration"@)
    } else if k == 11 {
        spec_contains(lower, "ui"@) || spec_contains(lower, "user interface"@) || spec_contains(
            lower,
            "frontend"@,
        ) || spec_contains(lower, "styling"@) || spec_contains(lower, "css"@) || spec_contains(
            lower,
            "design"@,
        )
    } else if k == 12 {
        spec_contains(lower, "component"@) || spec_contains(lower, "react"@) || spec_contains(
            lower,
            "angular"@,
        ) || spec_contains(lower, "vue"@)
    } else if k == 13 {
        spec_contains(lower, "plan"@) || spec_contains(lower, "organize"@) || spec_contains(
            lower,
            "structure"@,
        ) || spec_contains(lower, "architect"@) || spec_contains(lower, "design"@)
    } else if k == 14 {
        spec_contains(lower, "todo"@) || spec_contains(lower, "task"@) || spec_contains(
            lower,
            "milestone"@,
        ) || spec_contains(lower, "goal"@)
    } else {
        false
    }
}

/// The category that pattern `k` collapses to.
pub open spec fn pattern_category(k: int) -> Category {
    if k == 0 || k == 1 || k == 2 || k == 3 {
        Category::CodeDevelopment
    } else if k == 4 {
        Category::Documentation
    } else if k == 5 {
        Category::Analysis
    } else if k == 6 {
        Category::CodeSearch
    } else if k == 7 {
        Category::CodeReview
    } else if k == 8 || k == 9 {
        Category::SystemOperations
    } else if k == 10 {
        Category::DatabaseOperations
    } else if k == 11 || k == 12 {
        Category::FrontendDevelopment
    } else if k == 13 {
        Category::Planning
    } else if k == 14 {
        Category::ProjectManagement
    } else {
        Category::General
    }
}

/// The default description phrase of pattern `k`.
pub open spec fn pattern_default(k: int) -> Seq<char> {
    if k == 0 {
        "Implemented new functionality"@
    } else if k == 1 {
        "Fixed code issues"@
    } else if k == 2 {
        "Improved code quality"@
    } else if k == 3 {
        "Added tests"@
    } else if k == 4 {
        "Created documentation"@
    } else if k == 5 {
        "Analyzed codebase"@
    } else if k == 6 {
        "Searched for information"@
    } else if k == 7 {
        "Reviewed code"@
    } else if k == 8 {
        "Configured system"@
    } else if k == 9 {
        "Updated dependencies"@
    } else if k == 10 {
        "Worked with database"@
    } else if k == 11 {
        "Worked on user interface"@
    } else if k == 12 {
        "Developed UI components"@
    } else if k == 13 {
        "Planned project structure"@
    } else if k == 14 {
        "Managed tasks"@
    } else {
        "Worked on project task"@
    }
}

/// The first matching pattern at or after `k`, or `pattern_count()` if none
/// matches: evaluation is top to bottom and the first match wins.
pub open spec fn match_from(lower: Seq<char>, k: int) -> int
    decreases pattern_count() - k,
    when 0 <= k <= pattern_count()
{
    if k >= pattern_count() {
        pattern_count()
    } else if pattern_matches(lower, k) {
        k
    } else {
        match_from(lower, k + 1)
    }
}

/// The pattern chosen for a lower-cased prompt.
pub open spec fn chosen_pattern(lower: Seq<char>) -> int {
    match_from(lower, 0)
}

/// Category precedence is deterministic: whenever pattern `k` matches, the
/// chosen pattern stands at or before `k` and itself matches, so a prompt
/// matching several keyword groups is always classified by the earliest one.
pub proof fn lemma_first_pattern_wins(lower: Seq<char>, k: int)
    requires
        0 <= k < pattern_count(),
        pattern_matches(lower, k),
    ensures
        chosen_pattern(lower) <= k,
        pattern_matches(lower, chosen_pattern(lower)),
{
    lemma_match_from_le(lower, 0, k);
}

proof fn lemma_match_from_le(lower: Seq<char>, i: int, k: int)
    requires
        0 <= i <= k < pattern_count(),
        pattern_matches(lower, k),
    ensures
        match_from(lower, i) <= k,
        pattern_matches(lower, match_from(lower, i)),
    decreases k - i,
{
    if !pattern_matches(lower, i) {
        lemma_match_from_le(lower, i + 1, k);
    }
}

/// The description synthesized for a prompt: the trimmed first line,
/// truncated character-safely, behind the default phrase.
pub open spec fn spec_describe(raw: Seq<char>, default: Seq<char>) -> Seq<char> {
    let t = spec_trim(spec_first_line(raw));
    if t.len() > 80 {
        default + ": "@ + t.subrange(0, 77)
    } else if t.len() > 10 {
        default + ": "@ + t
    } else {
        default
    }
}

/// Builds the description for `raw` with the given default phrase.
pub fn describe(raw: &str, default: &str) -> (r: String)
    ensures
        r@ == spec_describe(raw@, default@),
{
    let (a, b) = crate::text::first_line_trim_bounds(raw);
    let mut out = default.to_owned();
    if b - a > 80 {
        out.append(": ");
        out.append(raw.substring_char(a, a + 77));
        proof {
            assert(spec_trim(spec_first_line(raw@)).subrange(0, 77) =~= raw@.subrange(
                a as int,
                a + 77,
            ));
        }
    } else if b - a > 10 {
        out.append(": ");
        out.append(raw.substring_char(a, b));
    }
    out
}

/// The issue text recorded for an error: the error message truncated to 150
/// characters, with an ellipsis marker when it was truncated.
pub open spec fn spec_issue(e: Seq<char>) -> Seq<char> {
    if e.len() > 150 {
        "Error encountered: "@ + e.subrange(0, 150) + "..."@
    } else {
        "Error encountered: "@ + e
    }
}

/// Builds the issue text for an error message.
pub fn build_issue(error: &str) -> (r: String)
    ensures
        r@ == spec_issue(error@),
{
    let n = error.unicode_len();
    let mut out = "Error encountered: ".to_owned();
    if n > 150 {
        out.append(error.substring_char(0, 150));
        out.append("...");
    } else {
        proof {
            assert(error@.subrange(0, n as int) =~= error@);
        }
        out.append(error.substring_char(0, n));
    }
    out
}

/// The category chosen for a lower-cased prompt; `General` when no pattern
/// matches.
pub open spec fn spec_chosen_category(lower: Seq<char>) -> Category {
    pattern_category(chosen_pattern(lower))
}

/// The default phrase chosen for a lower-cased prompt.
pub open spec fn spec_chosen_default(lower: Seq<char>) -> Seq<char> {
    pattern_default(chosen_pattern(lower))
}

/// What a correct classification of a prompt looks like: at most one
/// accomplishment, categorized by the first matching pattern, described from
/// the raw first line, carrying the sorted deduplicated file matches; no
/// accomplishment when nothing matches and the prompt has at most 20
/// characters.
pub open spec fn classifies(
    r: Option<Accomplishment>,
    lower: Seq<char>,
    raw: Seq<char>,
    dur: Option<u64>,
) -> bool {
    match r {
        Some(a) => (chosen_pattern(lower) < pattern_count() || raw.len() > 20) && a.category
            == spec_chosen_category(lower) && a.description@ == spec_describe(
            raw,
            spec_chosen_default(lower),
        ) && a.duration_ms == dur && crate::text::sorted_strict(a.files_affected@) && (forall|
            m: Seq<char>,
        |
            #[trigger] crate::text::contains_str(a.files_affected@, m)
                <==> crate::paths::match_in(raw, m)),
        None => chosen_pattern(lower) == pattern_count() && raw.len() <= 20,
    }
}

proof fn lemma_match_from_skip(lower: Seq<char>, i: int, k: int)
    requires
        0 <= i <= k <= pattern_count(),
        forall|j: int| i <= j < k ==> !pattern_matches(lower, j),
    ensures
        match_from(lower, i) == match_from(lower, k),
    decreases k - i,
{
    if i < k {
        lemma_match_from_skip(lower, i + 1, k);
    }
}

fn matches_pattern(lower: &str, k: usize) -> (r: bool)
    requires
        k < 15,
    ensures
        r == pattern_matches(lower@, k as int),
{
    if k == 0 {
        str_contains(lower, "write") || str_contains(lower, "create") || str_contains(
            lower,
            "implement",
        ) || str_contains(lower, "add") || str_contains(lower, "build") || str_contains(
            lower,
            "develop",
        ) || str_contains(lower, "code") || str_contains(lower, "program")
    } else if k == 1 {
        str_contains(lower, "fix") || str_contains(lower, "debug") || str_contains(
            lower,
            "resolve",
        ) || str_contains(lower, "solve") || str_contains(lower, "repair") || str_contains(
            lower,
            "correct",
        )
    } else if k == 2 {
        str_contains(lower, "refactor") || str_contains(lower, "optimize") || str_contains(
            lower,
            "improve",
        ) || str_contains(lower, "enhance") || str_contains(lower, "update")
    } else if k == 3 {
        str_contains(lower, "test") || str_contains(lower, "unit test") || str_contains(
            lower,
            "integration test",
        )
    } else if k == 4 {
        str_contains(lower, "document") || str_contains(lower, "write docs") || str_contains(
            lower,
            "readme",
        ) || str_contains(lower, "comment") || str_contains(lower, "explain")
    } else if k == 5 {
        str_contains(lower, "analyze") || str_contains(lower, "investigate") || str_contains(
            lower,
            "research",
        ) || str_contains(lower, "study") || str_contains(lower, "examine") || str_contains(
            lower,
            "explore",
        ) || str_contains(lower, "understand")
    } else if k == 6 {
        str_contains(lower, "find") || str_contains(lower, "search") || str_contains(
            lower,
            "look for",
        ) || str_contains(lower, "locate")
    } else if k == 7 {
        str_contains(lower, "review") || str_contains(lower, "check") || str_contains(
            lower,
            "verify",
        ) || str_contains(lower, "validate")
    } else if k == 8 {
        str_contains(lower, "configure") || str_contains(lower, "setup") || str_contains(
            lower,
            "install",
        ) || str_contains(lower, "deploy") || str_contains(lower, "initialize")
    } else if k == 9 {
        str_contains(lower, "migrate") || str_contains(lower, "upgrade") || str_contains(
            lower,
            "update dependencies",
        )
    } else if k == 10 {
        str_contains(lower, "database") || str_contains(lower, "sql") || str_contains(
            lower,
            "query",
        ) || str_contains(lower, "schema") || str_contains(lower, "migration")
    } else if k == 11 {
        str_contains(lower, "ui") || str_contains(lower, "user interface") || str_contains(
            lower,
            "frontend",
        ) || str_contains(lower, "styling") || str_contains(lower, "css") || str_contains(
            lower,
            "design",
        )
    } else if k == 12 {
        str_contains(lower, "component") || str_contains(lower, "react") || str_contains(
            lower,
            "angular",
        ) || str_contains(lower, "vue")
    } else if k == 13 {
        str_contains(lower, "plan") || str_contains(lower, "organize") || str_contains(
            lower,
            "structure",
        ) || str_contains(lower, "architect") || str_contains(lower, "design")
    } else {
        str_contains(lower, "todo") || str_contains(lower, "task") || str_contains(
            lower,
            "milestone",
        ) || str_contains(lower, "goal")
    }
}

fn pattern_category_exec(k: usize) -> (r: Category)
    requires
        k < 15,
    ensures
        r == pattern_category(k as int),
{
    if k <= 3 {
        Category::CodeDevelopment
    } else if k == 4 {
        Category::Documentation
    } else if k == 5 {
        Category::Analysis
    } else if k == 6 {
        Category::CodeSearch
    } else if k == 7 {
        Category::CodeReview
    } else if k == 8 || k == 9 {
        Category::SystemOperations
    } else if k == 10 {
        Category::DatabaseOperations
    } else if k == 11 || k == 12 {
        Category::FrontendDevelopment
    } else if k == 13 {
        Category::Planning
    } else {
        Category::ProjectManagement
    }
}

fn pattern_default_str(k: usize) -> (r: &'static str)
    requires
        k < 15,
    ensures
        r@ == pattern_default(k as int),
{
    if k == 0 {
        "Implemented new functionality"
    } else if k == 1 {
        "Fixed code issues"
    } else if k == 2 {
        "Improved code quality"
    } else if k == 3 {
        "Added tests"
    } else if k == 4 {
        "Created documentation"
    } else if k == 5 {
        "Analyzed codebase"
    } else if k == 6 {
        "Searched for information"
    } else if k == 7 {
        "Reviewed code"
    } else if k == 8 {
        "Configured system"
    } else if k == 9 {
        "Updated dependencies"
    } else if k == 10 {
        "Worked with database"
    } else if k == 11 {
        "Worked on user interface"
    } else if k == 12 {
        "Developed UI components"
    } else if k == 13 {
        "Planned project structure"
    } else {
        "Managed tasks"
    }
}

/// Classifies a prompt given its lower-cased copy: at most one accomplishment
/// is derived, and the first matching pattern of the precedence table wins.
pub fn classify_lowered(lower: &str, raw: &str, duration_ms: Option<u64>) -> (r: Option<
    Accomplishment,
>)
    ensures
        classifies(r, lower@, raw@, duration_ms),
{
    let mut k: usize = 0;
    while k < 15
        invariant
            k <= 15,
            forall|j: int| 0 <= j < k ==> !pattern_matches(lower@, j),
        decreases 15 - k,
    {
        if matches_pattern(lower, k) {
            proof {
                lemma_match_from_skip(lower@, 0, k as int);
            }
            let files = crate::paths::extract_files(raw);
            let desc = describe(raw, pattern_default_str(k));
            return Some(
                Accomplishment {
                    category: pattern_category_exec(k),
                    description: desc,
                    duration_ms,
                    files_affected: files,
                },
            );
        }
        k += 1;
    }
    proof {
        lemma_match_from_skip(lower@, 0, 15);
    }
    if raw.unicode_len() > 20 {
        let files = crate::paths::extract_files(raw);
        let desc = describe(raw, "Worked on project task");
        Some(
            Accomplishment {
                category: Category::General,
                description: desc,
                duration_ms,
                files_affected: files,
            },
        )
    } else {
        None
    }
}

/// What `str::to_lowercase` returns for a string: a pure function of the
/// characters alone.
pub uninterp spec fn lower_of(s: Seq<char>) -> Seq<char>;

/// Relies on str::to_lowercase: the lower-cased copy of a string, a function
/// of its characters alone.
#[verifier::external_body]
fn lowercase(s: &str) -> (r: String)
    ensures
        r@ == lower_of(s@),
{
    s.to_lowercase()
}

/// Classifies a prompt: lower-cases it, then derives at most one
/// accomplishment by the first matching pattern of the precedence table.
pub fn classify_prompt(raw: &str, duration_ms: Option<u64>) -> (r: Option<Accomplishment>)
    ensures
        classifies(r, lower_of(raw@), raw@, duration_ms),
{
    let lower = lowercase(raw);
    classify_lowered(lower.as_str(), raw, duration_ms)
}

/// Every default phrase of the pattern table is non-empty.
pub proof fn lemma_defaults_nonempty()
    ensures
        forall|k: int| (#[trigger] pattern_default(k)).len() > 0,
{
    reveal_strlit("Implemented new functionality");
    reveal_strlit("Fixed code issues");
    reveal_strlit("Improved code quality");
    reveal_strlit("Added tests");
    reveal_strlit("Created documentation");
    reveal_strlit("Analyzed codebase");
    reveal_strlit("Searched for information");
    reveal_strlit("Reviewed code");
    reveal_strlit("Configured system");
    reveal_strlit("Updated dependencies");
    reveal_strlit("Worked with database");
    reveal_strlit("Worked on user interface");
    reveal_strlit("Developed UI components");
    reveal_strlit("Planned project structure");
    reveal_strlit("Managed tasks");
    reveal_strlit("Worked on project task");
}

/// Synthesized descriptions are never empty: they always carry at least the
/// default phrase.
pub proof fn lemma_description_nonempty(raw: Seq<char>, default: Seq<char>)
    requires
        default.len() > 0,
    ensures
        spec_describe(raw, default).len() > 0,
{
}

/// The fixed lookup from a tool name to its category.
pub open spec fn spec_categorize_tool(name: Seq<char>) -> Category {
    if name == "Edit"@ || name == "Write"@ || name == "MultiEdit"@ {
        Category::CodeDevelopment
    } else if name == "Read"@ || name == "Glob"@ || name == "LS"@ {
        Category::CodeAnalysis
    } else if name == "Bash"@ {
        Category::SystemOperations
    } else if name == "Grep"@ {
        Category::CodeSearch
    } else if name == "Task"@ {
        Category::AiCollaboration
    } else if name == "TodoWrite"@ {
        Category::ProjectManagement
    } else if name == "WebFetch"@ {
        Category::Research
    } else {
        Category::Other
    }
}

/// Classifies a tool call by its tool name.
pub fn categorize_tool(name: &str) -> (r: Category)
    ensures
        r == spec_categorize_tool(name@),
{
    if str_eq(name, "Edit") || str_eq(name, "Write") || str_eq(name, "MultiEdit") {
        Category::CodeDevelopment
    } else if str_eq(name, "Read") || str_eq(name, "Glob") || str_eq(name, "LS") {
        Category::CodeAnalysis
    } else if str_eq(name, "Bash") {
        Category::SystemOperations
    } else if str_eq(name, "Grep") {
        Category::CodeSearch
    } else if str_eq(name, "Task") {
        Category::AiCollaboration
    } else if str_eq(name, "TodoWrite") {
        Category::ProjectManagement
    } else if str_eq(name, "WebFetch") {
        Category::Research
    } else {
        Category::Other
    }
}

} // verus!
