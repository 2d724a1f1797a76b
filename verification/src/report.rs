//! The report generator's verified content: what a rendered session report
//! contains — the duration summary, the accomplishments grouped by category
//! in first-occurrence order, and the remaining sections, each of which a
//! renderer omits when its collection is empty. The decoration around this
//! content is the caller's business.

use vstd::prelude::*;
use vstd::string::*;

use crate::classify::{Accomplishment, Category};
use crate::session::{DiarySession, ToolUsage};
use crate::store::{accs_view, acc_view, AccV};
use crate::text::{contains_str, sorted_strict, sorted_unique, strs_view};

verus! {

/// One category's group of accomplishments, in observation order.
pub struct CategoryGroup {
    pub category: Category,
    pub items: Vec<Accomplishment>,
}

/// The categories of a group list.
pub open spec fn groups_cats(s: Seq<CategoryGroup>) -> Seq<Category> {
    s.map_values(|g: CategoryGroup| g.category)
}

/// The distinct categories of the accomplishments, ordered by the first
/// occurrence of each.
pub open spec fn cats_in_order(s: Seq<Accomplishment>) -> Seq<Category>
    decreases s.len(),
{
    if s.len() == 0 {
        Seq::empty()
    } else {
        let c = cats_in_order(s.drop_last());
        if c.contains(s.last().category) {
            c
        } else {
            c.push(s.last().category)
        }
    }
}

/// The accomplishments bearing category `cat`, in observation order.
pub open spec fn items_of(s: Seq<Accomplishment>, cat: Category) -> Seq<AccV>
    decreases s.len(),
{
    if s.len() == 0 {
        Seq::empty()
    } else {
        items_of(s.drop_last(), cat) + if s.last().category == cat {
            seq![acc_view(s.last())]
        } else {
            Seq::empty()
        }
    }
}

fn has_group(groups: &Vec<CategoryGroup>, c: Category) -> (r: bool)
    ensures
        r == groups_cats(groups@).contains(c),
{
    let mut i: usize = 0;
    while i < groups.len()
        invariant
            i <= groups@.len(),
            forall|j: int| 0 <= j < i ==> groups_cats(groups@)[j] != c,
        decreases groups@.len() - i,
    {
        if groups[i].category == c {
            proof {
                assert(groups_cats(groups@)[i as int] == c);
            }
            return true;
        }
        proof {
            assert(groups_cats(groups@)[i as int] == groups@[i as int].category);
        }
        i += 1;
    }
    false
}

fn collect_items(accs: &Vec<Accomplishment>, cat: Category) -> (r: Vec<Accomplishment>)
    ensures
        accs_view(r@) == items_of(accs@, cat),
{
    let mut out: Vec<Accomplishment> = Vec::new();
    let mut i: usize = 0;
    proof {
        assert(accs@.take(0) =~= Seq::<Accomplishment>::empty());
        assert(accs_view(out@) =~= items_of(accs@.take(0), cat));
    }
    while i < accs.len()
        invariant
            i <= accs@.len(),
            accs_view(out@) == items_of(accs@.take(i as int), cat),
        decreases accs@.len() - i,
    {
        let ghost prev = out@;
        if accs[i].category == cat {
            let d = accs[i].duplicate();
            proof {
                assert(strs_view(d.files_affected@) =~= strs_view(
                    accs@[i as int].files_affected@,
                ));
                assert(acc_view(d) == acc_view(accs@[i as int]));
            }
            out.push(d);
        }
        proof {
            assert(accs@.take(i + 1).drop_last() =~= accs@.take(i as int));
            assert(accs@.take(i + 1).last() == accs@[i as int]);
            if accs@[i as int].category == cat {
                assert(accs_view(out@) =~= accs_view(prev).push(acc_view(accs@[i as int])));
                assert(accs_view(out@) =~= items_of(accs@.take(i + 1), cat));
            } else {
                assert(accs_view(out@) =~= items_of(accs@.take(i + 1), cat));
            }
        }
        i += 1;
    }
    proof {
        assert(accs@.take(accs@.len() as int) =~= accs@);
    }
    out
}

/// Groups accomplishments by category: one group per distinct category, in
/// the order each category first appears, holding that category's
/// accomplishments in observation order.
pub fn group_by_category(accs: &Vec<Accomplishment>) -> (r: Vec<CategoryGroup>)
    ensures
        groups_cats(r@) == cats_in_order(accs@),
        forall|k: int|
            0 <= k < r@.len() ==> accs_view(#[trigger] r@[k].items@) == items_of(
                accs@,
                r@[k].category,
            ),
{
    let mut out: Vec<CategoryGroup> = Vec::new();
    let mut i: usize = 0;
    proof {
        assert(accs@.take(0) =~= Seq::<Accomplishment>::empty());
        assert(groups_cats(out@) =~= cats_in_order(accs@.take(0)));
    }
    while i < accs.len()
        invariant
            i <= accs@.len(),
            groups_cats(out@) == cats_in_order(accs@.take(i as int)),
            forall|k: int|
                0 <= k < out@.len() ==> accs_view(#[trigger] out@[k].items@) == items_of(
                    accs@,
                    out@[k].category,
                ),
        decreases accs@.len() - i,
    {
        let c = accs[i].category;
        let ghost prev = out@;
        if !has_group(&out, c) {
            let items = collect_items(accs, c);
            out.push(CategoryGroup { category: c, items });
            proof {
                assert(groups_cats(out@) =~= groups_cats(prev).push(c));
            }
        }
        proof {
            assert(accs@.take(i + 1).drop_last() =~= accs@.take(i as int));
            assert(accs@.take(i + 1).last() == accs@[i as int]);
            if cats_in_order(accs@.take(i as int)).contains(c) {
                assert(groups_cats(out@) =~= cats_in_order(accs@.take(i + 1)));
            } else {
                assert(groups_cats(out@) =~= cats_in_order(accs@.take(i + 1)));
            }
        }
        i += 1;
    }
    proof {
        assert(accs@.take(accs@.len() as int) =~= accs@);
    }
    out
}

/// Minutes shown in a duration summary; the sub-minute marker is due
/// exactly when this is 0.
pub fn duration_minutes(total_duration_ms: u64) -> (r: u64)
    ensures
        r == total_duration_ms / 60000,
{
    total_duration_ms / 60000
}

/// The whole content of a session report: a renderer prints the duration
/// summary (the sub-minute marker exactly when `duration_minutes` is 0),
/// then each non-empty section.
pub struct ReportContent {
    pub duration_minutes: u64,
    pub groups: Vec<CategoryGroup>,
    pub objectives: Vec<String>,
    pub issues: Vec<String>,
    pub tools: Vec<ToolUsage>,
    pub files: Vec<String>,
}

/// Computes the report content of a session: minutes from milliseconds, the
/// category grouping, the sections in observation order, and the modified
/// files deduplicated and sorted.
pub fn report_content(session: &DiarySession) -> (r: ReportContent)
    ensures
        r.duration_minutes == session.total_duration_ms / 60000,
        groups_cats(r.groups@) == cats_in_order(session.accomplishments@),
        forall|k: int|
            0 <= k < r.groups@.len() ==> accs_view(#[trigger] r.groups@[k].items@) == items_of(
                session.accomplishments@,
                r.groups@[k].category,
            ),
        strs_view(r.objectives@) == strs_view(session.objectives@),
        strs_view(r.issues@) == strs_view(session.issues@),
        crate::store::tools_view(r.tools@) == crate::store::tools_view(session.tool_usage@),
        sorted_strict(r.files@),
        forall|m: Seq<char>|
            #[trigger] contains_str(r.files@, m) <==> strs_view(session.files_modified@).contains(
                m,
            ),
{
    ReportContent {
        duration_minutes: duration_minutes(session.total_duration_ms),
        groups: group_by_category(&session.accomplishments),
        objectives: crate::store::dup_strings(&session.objectives),
        issues: crate::store::dup_strings(&session.issues),
        tools: crate::store::dup_tools(&session.tool_usage),
        files: sorted_unique(&session.files_modified),
    }
}

} // verus!
