//! The library's laws: properties that hold of the parser and the task
//! model as wholes, proved from the definitions the contracts use.

use vstd::prelude::*;
use crate::date::Date;
use crate::parser::{
    AttrToken, extract_spec, residual_text, scan_tokens, stack_after, token_at,
};
use crate::select::key_lt;
use crate::task::{
    DateAttribute, TaskAttributesV, TaskV, date_visible, task_details_text, task_displayed,
    task_sort_key,
};
use crate::text::{rtrim, rtrim_len};


verus! {

/// A run of heading lines, each given as its level and name, folded over
/// the stack; `None` when some heading is more than one level deeper
/// than the stack before it, as `handle_headings_stack` refuses it.
pub open spec fn stack_run(hs: Seq<(int, Seq<char>)>, i: int, st: Seq<Seq<char>>) -> Option<
    Seq<Seq<char>>,
>
    decreases hs.len() - i,
{
    if !(0 <= i < hs.len()) {
        Some(st)
    } else if hs[i].0 > st.len() + 1 {
        None
    } else {
        stack_run(hs, i + 1, stack_after(st, hs[i].0, hs[i].1))
    }
}

proof fn lemma_stack_run_increments(hs: Seq<(int, Seq<char>)>, i: int, st: Seq<Seq<char>>)
    requires
        0 <= i <= hs.len(),
        forall|k: int| i <= k < hs.len() ==> (#[trigger] hs[k].0) == st.len() + (k - i) + 1,
    ensures
        stack_run(hs, i, st) matches Some(fin) && fin.len() == st.len() + (hs.len() - i),
    decreases hs.len() - i,
{
    if i < hs.len() {
        let st2 = stack_after(st, hs[i].0, hs[i].1);
        assert(st2.len() == st.len() + 1);
        lemma_stack_run_increments(hs, i + 1, st2);
    }
}

/// When heading levels start at one and rise by exactly one per heading,
/// the whole run is accepted and the stack depth afterwards equals the
/// number of headings seen, which is the deepest level seen so far.
pub proof fn lemma_heading_stack_depth(hs: Seq<(int, Seq<char>)>)
    requires
        forall|k: int| 0 <= k < hs.len() ==> (#[trigger] hs[k].0) == k + 1,
    ensures
        stack_run(hs, 0, Seq::empty()) matches Some(fin) && fin.len() == hs.len(),
{
    lemma_stack_run_increments(hs, 0, Seq::empty());
}

/// A heading that jumps more than one level past the depth the
/// preceding headings built is refused: the run yields no stack.
pub proof fn lemma_heading_jump_refused(hs: Seq<(int, Seq<char>)>, m: int)
    requires
        0 <= m < hs.len(),
        forall|k: int| 0 <= k < m ==> (#[trigger] hs[k].0) == k + 1,
        hs[m].0 > m + 1,
    ensures
        stack_run(hs, 0, Seq::empty()) is None,
{
    lemma_jump_aux(hs, 0, m, Seq::empty());
}

proof fn lemma_jump_aux(hs: Seq<(int, Seq<char>)>, i: int, m: int, st: Seq<Seq<char>>)
    requires
        0 <= i <= m < hs.len(),
        st.len() == i,
        forall|k: int| i <= k < m ==> (#[trigger] hs[k].0) == k + 1,
        hs[m].0 > m + 1,
    ensures
        stack_run(hs, i, st) is None,
    decreases m - i,
{
    if i < m {
        let st2 = stack_after(st, hs[i].0, hs[i].1);
        assert(st2.len() == i + 1);
        lemma_jump_aux(hs, i + 1, m, st2);
    }
}

proof fn lemma_residual_no_bracket(s: Seq<char>, i: int)
    requires
        forall|j: int| 0 <= j < s.len() && s[j] == '[' ==> (#[trigger] token_at(s, j)) is Some,
        0 <= i,
    ensures
        forall|k: int|
            0 <= k < residual_text(s, i).len() ==> (#[trigger] residual_text(s, i)[k]) != '[',
    decreases s.len() - i,
{
    if 0 <= i < s.len() {
        match token_at(s, i) {
            Some(t) => {
                let next = if i < t.end <= s.len() {
                    t.end
                } else {
                    i + 1
                };
                lemma_residual_no_bracket(s, next);
                assert(residual_text(s, i) == residual_text(s, next));
            },
            None => {
                assert(s[i] != '[');
                lemma_residual_no_bracket(s, i + 1);
                assert forall|k: int| 0 <= k < residual_text(s, i).len() implies (
                #[trigger] residual_text(s, i)[k]) != '[' by {
                    if k > 0 {
                        assert(residual_text(s, i)[k] == residual_text(s, i + 1)[k - 1]);
                    }
                }
            },
        }
    }
}

proof fn lemma_no_bracket_no_tokens(t: Seq<char>, i: int)
    requires
        forall|k: int| 0 <= k < t.len() ==> t[k] != '[',
        0 <= i,
    ensures
        scan_tokens(t, i) =~= Seq::<AttrToken>::empty(),
    decreases t.len() - i,
{
    if 0 <= i < t.len() {
        assert(token_at(t, i) is None);
        lemma_no_bracket_no_tokens(t, i + 1);
    }
}

/// Round trip of attribute extraction: when every opening bracket of a
/// title starts a well-formed attribute token, re-scanning the residual
/// title finds no further token. (A bracket that opens no token can,
/// once tokens around it are cut out, come to stand before a `:` and
/// form a new token; such titles are left out.)
pub proof fn lemma_extract_residual_clean(title: Seq<char>, today: Date)
    requires
        forall|j: int|
            0 <= j < title.len() && title[j] == '[' ==> (#[trigger] token_at(title, j)) is Some,
    ensures
        extract_spec(title, today) matches Ok(p) ==> scan_tokens(p.1, 0)
            =~= Seq::<AttrToken>::empty(),
{
    if extract_spec(title, today) is Ok {
        let res = residual_text(title, 0);
        lemma_residual_no_bracket(title, 0);
        let trimmed = rtrim(res);
        crate::text::lemma_rtrim_len_bounds(res);
        assert(trimmed == res.take(rtrim_len(res)));
        assert forall|k: int| 0 <= k < trimmed.len() implies trimmed[k] != '[' by {
            assert(trimmed[k] == res[k]);
        }
        lemma_no_bracket_no_tokens(trimmed, 0);
    }
}

/// Rendering a task's details is a function of the task and the day
/// alone: two renderings with the same inputs are the same text.
/// `Task::details` ensures its result is `task_details_text(self@, today)`,
/// so two calls on one task and one day return equal strings.
pub proof fn lemma_details_deterministic(t: TaskV, today: Date, r1: Seq<char>, r2: Seq<char>)
    requires
        r1 == task_details_text(t, today),
        r2 == task_details_text(t, today),
    ensures
        r1 == r2,
{
}

/// A date attribute due today is visible with no lookahead.
pub proof fn lemma_due_today_visible(a: DateAttribute, today: Date)
    requires
        a.due_date == Some(today),
    ensures
        date_visible(a, today, 0),
{
}

/// A task that is done is never displayed, whatever its dates.
pub proof fn lemma_done_never_displayed(t: TaskV, today: Date, lookahead: int)
    requires
        t.done,
    ensures
        !task_displayed(t, today, lookahead),
{
}

/// A subtask that left its due date unset reports its parent's due date
/// after the merge; a set date is kept.
pub proof fn lemma_merge_inherits_due(child: TaskAttributesV, parent: TaskAttributesV)
    ensures
        child.date_attr.due_date is None ==> crate::parser::merge_attrs_v(
            child,
            parent,
        ).date_attr.due_date == parent.date_attr.due_date,
        child.date_attr.due_date is Some ==> crate::parser::merge_attrs_v(
            child,
            parent,
        ).date_attr.due_date == child.date_attr.due_date,
{
}

/// A task with an explicit priority below the unprioritized mark sorts
/// strictly before any unprioritized task, whatever their paths and
/// dates.
pub proof fn lemma_prioritized_sorts_first(t1: TaskV, t2: TaskV, today: Date)
    requires
        t1.attrs.priority matches Some(p) && (p as int) < (crate::task::UNPRIORITIZED as int),
        t2.attrs.priority is None,
    ensures
        key_lt(task_sort_key(t1, today), task_sort_key(t2, today)),
{
}

} // verus!
