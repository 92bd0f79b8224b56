//! Choosing and ordering the tasks to display: the visibility filter and
//! the sort-key order, with the ordering's laws.

use vstd::prelude::*;
use crate::date::Date;
use crate::task::{Task, TaskSortKey, TaskSortKeyV, TaskV, task_displayed, task_sort_key, task_view};

verus! {

/// Strict lexicographic order on strings by character code point; it
/// agrees with the byte order of their UTF-8 forms.
pub open spec fn str_lt(a: Seq<char>, b: Seq<char>) -> bool
    decreases a.len(),
{
    if b.len() == 0 {
        false
    } else if a.len() == 0 {
        true
    } else if (a[0] as u32) < (b[0] as u32) {
        true
    } else if a[0] == b[0] {
        str_lt(a.drop_first(), b.drop_first())
    } else {
        false
    }
}

/// Strict lexicographic order on heading paths, string by string.
pub open spec fn path_lt(a: Seq<Seq<char>>, b: Seq<Seq<char>>) -> bool
    decreases a.len(),
{
    if b.len() == 0 {
        false
    } else if a.len() == 0 {
        true
    } else if str_lt(a[0], b[0]) {
        true
    } else if a[0] == b[0] {
        path_lt(a.drop_first(), b.drop_first())
    } else {
        false
    }
}

/// Strict order on sort keys: by priority, then path, then reminder
/// delta, then due delta.
pub open spec fn key_lt(a: TaskSortKeyV, b: TaskSortKeyV) -> bool {
    ||| a.priority < b.priority
    ||| (a.priority == b.priority && path_lt(a.path, b.path))
    ||| (a.priority == b.priority && a.path == b.path && a.reminder_delta < b.reminder_delta)
    ||| (a.priority == b.priority && a.path == b.path && a.reminder_delta == b.reminder_delta
        && a.due_delta < b.due_delta)
}

/// The order tasks are displayed in: `a` at or before `b`.
pub open spec fn key_le(a: TaskSortKeyV, b: TaskSortKeyV) -> bool {
    !key_lt(b, a)
}

proof fn lemma_str_trichotomy(a: Seq<char>, b: Seq<char>)
    ensures
        str_lt(a, b) || str_lt(b, a) || a == b,
        !(str_lt(a, b) && str_lt(b, a)),
    decreases a.len(),
{
    if a.len() == 0 && b.len() == 0 {
        assert(a =~= b);
    }
    if a.len() > 0 && b.len() > 0 && a[0] != b[0] {
        // different characters differ as code points
        vstd::utf8::char_u32_cast(a[0], a[0] as u32);
        vstd::utf8::char_u32_cast(b[0], b[0] as u32);
        assert((a[0] as u32) != (b[0] as u32));
    }
    if a.len() > 0 && b.len() > 0 && a[0] == b[0] {
        lemma_str_trichotomy(a.drop_first(), b.drop_first());
        if a.drop_first() == b.drop_first() {
            assert(a.len() == 1 + a.drop_first().len());
            assert forall|k: int| 0 <= k < a.len() implies a[k] == b[k] by {
                if k > 0 {
                    assert(a.drop_first()[k - 1] == a[k]);
                    assert(b.drop_first()[k - 1] == b[k]);
                }
            }
            assert(a =~= b);
        }
    }
}

proof fn lemma_str_lt_trans(a: Seq<char>, b: Seq<char>, c: Seq<char>)
    requires
        str_lt(a, b),
        str_lt(b, c),
    ensures
        str_lt(a, c),
    decreases a.len(),
{
    if a.len() > 0 && b.len() > 0 && c.len() > 0 && a[0] == b[0] && b[0] == c[0] {
        lemma_str_lt_trans(a.drop_first(), b.drop_first(), c.drop_first());
    }
}

proof fn lemma_path_trichotomy(a: Seq<Seq<char>>, b: Seq<Seq<char>>)
    ensures
        path_lt(a, b) || path_lt(b, a) || a == b,
        !(path_lt(a, b) && path_lt(b, a)),
    decreases a.len(),
{
    if a.len() == 0 && b.len() == 0 {
        assert(a =~= b);
    }
    if a.len() > 0 && b.len() > 0 {
        lemma_str_trichotomy(a[0], b[0]);
        if a[0] == b[0] {
            lemma_path_trichotomy(a.drop_first(), b.drop_first());
            if a.drop_first() == b.drop_first() {
                assert(a.len() == 1 + a.drop_first().len());
                assert forall|k: int| 0 <= k < a.len() implies a[k] == b[k] by {
                    if k > 0 {
                        assert(a.drop_first()[k - 1] == a[k]);
                        assert(b.drop_first()[k - 1] == b[k]);
                    }
                }
                assert(a =~= b);
            }
        }
    }
}

proof fn lemma_path_lt_trans(a: Seq<Seq<char>>, b: Seq<Seq<char>>, c: Seq<Seq<char>>)
    requires
        path_lt(a, b),
        path_lt(b, c),
    ensures
        path_lt(a, c),
    decreases a.len(),
{
    if a.len() > 0 && b.len() > 0 && c.len() > 0 {
        lemma_str_trichotomy(a[0], b[0]);
        lemma_str_trichotomy(b[0], c[0]);
        if a[0] == b[0] && b[0] == c[0] {
            lemma_path_lt_trans(a.drop_first(), b.drop_first(), c.drop_first());
        } else if str_lt(a[0], b[0]) && str_lt(b[0], c[0]) {
            lemma_str_lt_trans(a[0], b[0], c[0]);
        }
    }
}

/// Any two sort keys are ordered one way or the other.
pub proof fn lemma_key_le_total(a: TaskSortKeyV, b: TaskSortKeyV)
    ensures
        key_le(a, b) || key_le(b, a),
{
    lemma_path_trichotomy(a.path, b.path);
}

/// The display order is transitive.
pub proof fn lemma_key_le_trans(a: TaskSortKeyV, b: TaskSortKeyV, c: TaskSortKeyV)
    requires
        key_le(a, b),
        key_le(b, c),
    ensures
        key_le(a, c),
{
    lemma_path_trichotomy(a.path, b.path);
    lemma_path_trichotomy(b.path, c.path);
    lemma_path_trichotomy(a.path, c.path);
    if key_lt(c, a) {
        if path_lt(c.path, a.path) && path_lt(a.path, b.path) {
            lemma_path_lt_trans(c.path, a.path, b.path);
        }
        if path_lt(b.path, c.path) && path_lt(c.path, a.path) {
            lemma_path_lt_trans(b.path, c.path, a.path);
        }
        if path_lt(a.path, b.path) && path_lt(b.path, c.path) {
            lemma_path_lt_trans(a.path, b.path, c.path);
        }
    }
}

/// Decides `str_lt`.
fn str_less(a: &str, b: &str) -> (r: bool)
    ensures
        r == str_lt(a@, b@),
{
    let an = a.unicode_len();
    let bn = b.unicode_len();
    proof {
        assert(a@.skip(0) =~= a@);
        assert(b@.skip(0) =~= b@);
    }
    let mut i: usize = 0;
    while i < an && i < bn
        invariant
            0 <= i <= an,
            0 <= i <= bn,
            an == a@.len(),
            bn == b@.len(),
            str_lt(a@, b@) == str_lt(a@.skip(i as int), b@.skip(i as int)),
        decreases an - i,
    {
        let ca = a.get_char(i);
        let cb = b.get_char(i);
        proof {
            assert(a@.skip(i as int)[0] == a@[i as int]);
            assert(b@.skip(i as int)[0] == b@[i as int]);
            assert(a@.skip(i as int).drop_first() =~= a@.skip(i as int + 1));
            assert(b@.skip(i as int).drop_first() =~= b@.skip(i as int + 1));
        }
        if (ca as u32) < (cb as u32) {
            return true;
        }
        if ca != cb {
            return false;
        }
        i = i + 1;
    }
    proof {
        assert(a@.skip(i as int).len() == an - i);
        assert(b@.skip(i as int).len() == bn - i);
    }
    i >= an && i < bn
}

/// Decides `path_lt` on the views of two paths.
fn path_less(a: &Vec<String>, b: &Vec<String>) -> (r: bool)
    ensures
        r == path_lt(a.deep_view(), b.deep_view()),
{
    let ghost adv = a.deep_view();
    let ghost bdv = b.deep_view();
    let an = a.len();
    let bn = b.len();
    proof {
        assert(adv.skip(0) =~= adv);
        assert(bdv.skip(0) =~= bdv);
    }
    let mut i: usize = 0;
    while i < an && i < bn
        invariant
            0 <= i <= an,
            0 <= i <= bn,
            an == a@.len(),
            bn == b@.len(),
            adv == a.deep_view(),
            bdv == b.deep_view(),
            path_lt(adv, bdv) == path_lt(adv.skip(i as int), bdv.skip(i as int)),
        decreases an - i,
    {
        proof {
            assert(adv.skip(i as int)[0] == adv[i as int]);
            assert(bdv.skip(i as int)[0] == bdv[i as int]);
            assert(adv[i as int] == a@[i as int]@);
            assert(bdv[i as int] == b@[i as int]@);
            assert(adv.skip(i as int).drop_first() =~= adv.skip(i as int + 1));
            assert(bdv.skip(i as int).drop_first() =~= bdv.skip(i as int + 1));
            lemma_str_trichotomy(adv[i as int], bdv[i as int]);
        }
        if !(a[i] == b[i]) {
            return str_less(a[i].as_str(), b[i].as_str());
        }
        i = i + 1;
    }
    proof {
        assert(adv.skip(i as int).len() == an - i);
        assert(bdv.skip(i as int).len() == bn - i);
    }
    i >= an && i < bn
}

/// Decides `key_lt`.
pub fn key_less(a: &TaskSortKey, b: &TaskSortKey) -> (r: bool)
    ensures
        r == key_lt(a@, b@),
{
    if a.priority < b.priority {
        return true;
    }
    if a.priority > b.priority {
        return false;
    }
    proof {
        lemma_path_trichotomy(a@.path, b@.path);
    }
    if path_less(&a.path, &b.path) {
        return true;
    }
    if path_less(&b.path, &a.path) {
        return false;
    }
    if a.reminder_delta < b.reminder_delta {
        return true;
    }
    if a.reminder_delta > b.reminder_delta {
        return false;
    }
    a.due_delta < b.due_delta
}

/// The displayed tasks of `ts[i..]`, in their order.
pub open spec fn displayed_only(ts: Seq<TaskV>, i: int, today: Date, lookahead: int) -> Seq<TaskV>
    decreases ts.len() - i,
{
    if !(0 <= i < ts.len()) {
        Seq::empty()
    } else if task_displayed(ts[i], today, lookahead) {
        seq![ts[i]] + displayed_only(ts, i + 1, today, lookahead)
    } else {
        displayed_only(ts, i + 1, today, lookahead)
    }
}

/// Keeps the tasks displayed for `today` with the given lookahead, and
/// sorts them by their sort keys, ascending: the result holds exactly the
/// displayed tasks, in display order.
pub fn select_tasks(tasks: Vec<Task>, today: &Date, lookahead_days: i64) -> (r: Vec<Task>)
    requires
        today.wf(),
        forall|i: int|
            #![trigger tasks@[i]]
            0 <= i < tasks@.len() ==> task_view(tasks@[i]).wf(),
    ensures
        r.deep_view().to_multiset() == displayed_only(
            tasks.deep_view(),
            0,
            *today,
            lookahead_days as int,
        ).to_multiset(),
        forall|i: int, j: int|
            0 <= i < j < r.deep_view().len() ==> key_le(
                task_sort_key(#[trigger] r.deep_view()[i], *today),
                task_sort_key(#[trigger] r.deep_view()[j], *today),
            ),
        forall|i: int|
            #![trigger r.deep_view()[i]]
            0 <= i < r.deep_view().len() ==> r.deep_view()[i].wf() && task_displayed(
                r.deep_view()[i],
                *today,
                lookahead_days as int,
            ),
{
    broadcast use vstd::seq_lib::group_to_multiset_ensures;

    let ghost all = tasks.deep_view();
    let ghost la = lookahead_days as int;
    let mut tasks = tasks;
    let mut kept: Vec<Task> = Vec::new();
    proof {
        assert(kept.deep_view() =~= Seq::<TaskV>::empty());
        assert(tasks.deep_view() =~= all.skip(0));
        assert(forall|q: int| 0 <= q < all.len() ==> (#[trigger] all[q]).wf()) by {
            assert(forall|q: int|
                0 <= q < all.len() ==> all[q] == task_view(#[trigger] tasks@[q]));
        }
    }
    let ghost n = all.len() as int;
    proof {
        assert(Seq::<TaskV>::empty() + displayed_only(all, 0, *today, la) =~= displayed_only(
            all,
            0,
            *today,
            la,
        ));
    }
    while tasks.len() > 0
        invariant
            today.wf(),
            la == lookahead_days as int,
            n == all.len(),
            kept@.len() + tasks@.len() <= n,
            tasks.deep_view() =~= all.skip(n - tasks@.len() as int),
            forall|q: int| 0 <= q < all.len() ==> (#[trigger] all[q]).wf(),
            displayed_only(all, 0, *today, la) =~= kept.deep_view() + displayed_only(
                all,
                n - tasks@.len() as int,
                *today,
                la,
            ),
            forall|q: int|
                #![trigger kept.deep_view()[q]]
                0 <= q < kept.deep_view().len() ==> kept.deep_view()[q].wf() && task_displayed(
                    kept.deep_view()[q],
                    *today,
                    la,
                ),
        decreases tasks.len(),
    {
        let ghost c = n - tasks@.len() as int;
        let ghost pre_tasks_dv = tasks.deep_view();
        let ghost pre_tasks_v = tasks@;
        let ghost pre_kept = kept.deep_view();
        let t = tasks.remove(0);
        proof {
            assert(task_view(t) == pre_tasks_dv[0]);
            assert(pre_tasks_dv[0] == all.skip(c)[0]);
            assert(all.skip(c)[0] == all[c]);
            assert(task_view(t).wf());
            assert forall|q: int| 0 <= q < tasks.deep_view().len() implies tasks.deep_view()[q]
                == all.skip(c + 1)[q] by {
                assert(tasks@[q] == pre_tasks_v[q + 1]);
                assert(tasks.deep_view()[q] == task_view(tasks@[q]));
                assert(pre_tasks_dv[q + 1] == task_view(pre_tasks_v[q + 1]));
                assert(pre_tasks_dv[q + 1] == all.skip(c)[q + 1]);
            }
            assert(tasks.deep_view() =~= all.skip(c + 1));
        }
        if t.is_displayed(today, lookahead_days) {
            kept.push(t);
            proof {
                assert forall|q: int| 0 <= q < kept.deep_view().len() implies kept.deep_view()[q]
                    == pre_kept.push(all[c])[q] by {
                    if q < pre_kept.len() {
                        assert(kept.deep_view()[q] == pre_kept[q]);
                    }
                }
                assert(kept.deep_view() =~= pre_kept.push(all[c]));
                assert(displayed_only(all, c, *today, la) =~= seq![all[c]] + displayed_only(
                    all,
                    c + 1,
                    *today,
                    la,
                ));
                assert(pre_kept.push(all[c]) + displayed_only(all, c + 1, *today, la) =~= pre_kept
                    + displayed_only(all, c, *today, la));
            }
        } else {
            proof {
                assert(displayed_only(all, c, *today, la) =~= displayed_only(
                    all,
                    c + 1,
                    *today,
                    la,
                ));
            }
        }
    }
    proof {
        assert(displayed_only(all, n, *today, la) =~= Seq::<TaskV>::empty());
        assert(kept.deep_view() + displayed_only(all, n, *today, la) =~= kept.deep_view());
        assert(kept.deep_view() == displayed_only(all, 0, *today, la));
    }
    // insertion sort by sort key, moving each element down by adjacent swaps
    let ghost want_ms = displayed_only(all, 0, *today, la).to_multiset();
    let ghost klen = kept@.len();
    let mut idx: usize = 1;
    while idx < kept.len()
        invariant
            1 <= idx,
            today.wf(),
            la == lookahead_days as int,
            kept@.len() == klen,
            kept.deep_view().to_multiset() == want_ms,
            forall|q: int|
                #![trigger kept.deep_view()[q]]
                0 <= q < kept.deep_view().len() ==> kept.deep_view()[q].wf() && task_displayed(
                    kept.deep_view()[q],
                    *today,
                    la,
                ),
            forall|a: int, b: int|
                0 <= a < b < idx as int && b < kept.deep_view().len() ==> key_le(
                    task_sort_key(#[trigger] kept.deep_view()[a], *today),
                    task_sort_key(#[trigger] kept.deep_view()[b], *today),
                ),
        decreases kept.len() - idx,
    {
        let mut j: usize = idx;
        let mut placing = true;
        while placing && j > 0
            invariant
                0 <= j <= idx < kept@.len(),
                today.wf(),
                la == lookahead_days as int,
                kept@.len() == klen,
                kept.deep_view().to_multiset() == want_ms,
                forall|q: int|
                    #![trigger kept.deep_view()[q]]
                    0 <= q < kept.deep_view().len() ==> kept.deep_view()[q].wf() && task_displayed(
                        kept.deep_view()[q],
                        *today,
                        la,
                    ),
                forall|a: int, b: int|
                    0 <= a < b <= idx as int && a != j as int && b != j as int ==> key_le(
                        task_sort_key(#[trigger] kept.deep_view()[a], *today),
                        task_sort_key(#[trigger] kept.deep_view()[b], *today),
                    ),
                forall|b: int|
                    j < b <= idx as int ==> key_le(
                        task_sort_key(kept.deep_view()[j as int], *today),
                        task_sort_key(#[trigger] kept.deep_view()[b], *today),
                    ),
                !placing ==> 1 <= j && key_le(
                    task_sort_key(kept.deep_view()[j as int - 1], *today),
                    task_sort_key(kept.deep_view()[j as int], *today),
                ),
            decreases j + (if placing { 1int } else { 0int }),
        {
            let kcur = kept[j].sort_key(today);
            let kprev = kept[j - 1].sort_key(today);
            proof {
                assert(kept.deep_view()[j as int] == task_view(kept@[j as int]));
                assert(kept.deep_view()[j as int - 1] == task_view(kept@[j as int - 1]));
            }
            if key_less(&kcur, &kprev) {
                let ghost pre = kept.deep_view();
                let ghost jj = j as int;
                proof {
                    assert(pre.len() == kept@.len());
                    lemma_key_le_total(kcur@, kprev@);
                }
                let moved = kept.remove(j - 1);
                kept.insert(j, moved);
                proof {
                    assert forall|q: int| 0 <= q < kept.deep_view().len()
                        implies kept.deep_view()[q] == pre.update(jj - 1, pre[jj]).update(
                        jj,
                        pre[jj - 1],
                    )[q] by {
                        assert(kept.deep_view()[q] == task_view(kept@[q]));
                    }
                    let now = kept.deep_view();
                    assert(now =~= pre.update(jj - 1, pre[jj]).update(jj, pre[jj - 1]));
                    assert(now.to_multiset() == want_ms) by {
                        broadcast use vstd::multiset::group_multiset_axioms;

                        assert(now =~= pre.remove(jj - 1).insert(jj, pre[jj - 1]));
                        vstd::seq_lib::to_multiset_remove::<TaskV>(pre, jj - 1);
                        vstd::seq_lib::to_multiset_insert::<TaskV>(
                            pre.remove(jj - 1),
                            jj,
                            pre[jj - 1],
                        );
                        vstd::seq_lib::to_multiset_contains::<TaskV>(pre, pre[jj - 1]);
                        assert(pre.contains(pre[jj - 1])) by {
                            assert(pre[jj - 1] == pre[jj - 1]);
                        }
                        assert(pre.to_multiset().count(pre[jj - 1]) > 0);
                        assert(pre.to_multiset().remove(pre[jj - 1]).insert(pre[jj - 1])
                            =~= pre.to_multiset());
                    }
                    // the travelling element sits one lower; order facts follow it
                    assert(now[jj - 1] == pre[jj]);
                    assert(now[jj] == pre[jj - 1]);
                    assert(key_le(
                        task_sort_key(now[jj - 1], *today),
                        task_sort_key(now[jj], *today),
                    ));
                    assert forall|a: int, b: int|
                        0 <= a < b <= idx as int && a != jj - 1 && b != jj - 1 implies key_le(
                        task_sort_key(#[trigger] now[a], *today),
                        task_sort_key(#[trigger] now[b], *today),
                    ) by {
                        if a == jj {
                            assert(now[a] == pre[jj - 1]);
                            assert(now[b] == pre[b]);
                            assert(key_le(
                                task_sort_key(pre[jj - 1], *today),
                                task_sort_key(pre[b], *today),
                            ));
                        } else if b == jj {
                            assert(now[a] == pre[a]);
                            assert(key_le(
                                task_sort_key(pre[a], *today),
                                task_sort_key(pre[jj - 1], *today),
                            ));
                        } else {
                            assert(now[a] == pre[a]);
                            assert(now[b] == pre[b]);
                        }
                    }
                    assert forall|b: int| jj - 1 < b <= idx as int implies key_le(
                        task_sort_key(now[jj - 1], *today),
                        task_sort_key(#[trigger] now[b], *today),
                    ) by {
                        if b > jj {
                            assert(now[b] == pre[b]);
                            assert(key_le(
                                task_sort_key(pre[jj], *today),
                                task_sort_key(pre[b], *today),
                            ));
                        }
                    }
                }
                j = j - 1;
            } else {
                placing = false;
            }
        }
        proof {
            let now = kept.deep_view();
            assert forall|a: int, b: int| 0 <= a < b <= idx as int && b < now.len()
                implies key_le(
                task_sort_key(#[trigger] now[a], *today),
                task_sort_key(#[trigger] now[b], *today),
            ) by {
                let ka = task_sort_key(now[a], *today);
                let kb = task_sort_key(now[b], *today);
                let kj = task_sort_key(now[j as int], *today);
                if j == 0 {
                    if a == 0 {
                        assert(key_le(kj, kb));
                    }
                } else {
                    let kp = task_sort_key(now[j as int - 1], *today);
                    if a == j as int {
                        assert(key_le(kj, kb));
                    } else if b == j as int {
                        if a == j as int - 1 {
                            assert(key_le(kp, kj));
                        } else {
                            lemma_key_le_trans(ka, kp, kj);
                        }
                    }
                }
            }
        }
        idx = idx + 1;
    }
    kept
}

} // verus!