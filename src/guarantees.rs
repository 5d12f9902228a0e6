//! What holds across the collection's operations: ids over a run of
//! creates and deletes, updates and deletes of missing ids, partial updates, listings
//! by category and unfiltered totals.
use vstd::prelude::*;
use crate::date::Date;
use crate::expenses_definitions::{
    created, dates_wf, has_id, in_category, lemma_remove_wf, lemma_without_missing_id,
    lemma_without_present_id, listed, state_wf, total, updated, updated_all, without_id,
    CreateExpense, Expense, UpdateExpense,
};

verus! {

/// One change to a collection: a create of the given fields, or a delete
/// of the given id.
pub enum Change {
    Create(CreateExpense),
    Delete(u32),
}

/// The records and next id of a collection with records `s` and next id
/// `next` after the change `c`, any create being dated `today`.
pub open spec fn step(s: Seq<Expense>, next: nat, c: Change, today: Date) -> (Seq<Expense>, nat) {
    match c {
        Change::Create(data) => if next <= u32::MAX {
            (s.push(created(next, data, today)), next + 1)
        } else {
            (s, next)
        },
        Change::Delete(id) => (without_id(s, id), next),
    }
}

/// The records and next id after the changes `cs`, in order.
pub open spec fn run(s: Seq<Expense>, next: nat, cs: Seq<Change>, today: Date) -> (Seq<Expense>, nat)
    decreases cs.len(),
{
    if cs.len() == 0 {
        (s, next)
    } else {
        let before = run(s, next, cs.drop_last(), today);
        step(before.0, before.1, cs.last(), today)
    }
}

/// The ids that the creates among `cs` hand out, in order.
pub open spec fn issued(s: Seq<Expense>, next: nat, cs: Seq<Change>, today: Date) -> Seq<nat>
    decreases cs.len(),
{
    if cs.len() == 0 {
        Seq::empty()
    } else {
        let before = run(s, next, cs.drop_last(), today);
        let earlier = issued(s, next, cs.drop_last(), today);
        if cs.last() is Create && before.1 <= u32::MAX {
            earlier.push(before.1)
        } else {
            earlier
        }
    }
}

/// The sum of the amounts of all records of `s`.
pub open spec fn amount_sum(s: Seq<Expense>) -> nat
    decreases s.len(),
{
    if s.len() == 0 {
        0
    } else {
        amount_sum(s.drop_last()) + s.last().amount as nat
    }
}

/// A create keeps the collection's invariant, and its id lies above every id
/// present.
pub proof fn lemma_created_wf(s: Seq<Expense>, next: nat, data: CreateExpense, today: Date)
    requires
        state_wf(s, next),
        today.wf(),
        next <= u32::MAX,
    ensures
        state_wf(s.push(created(next, data, today)), next + 1),
{
    let r = s.push(created(next, data, today));
    assert forall|i: int| 0 <= i < r.len() implies (#[trigger] r[i]).id >= 1 && dates_wf(r[i]) && r[i].id < next + 1 by {
        if i < s.len() {
            assert(r[i] == s[i]);
        }
    }
}

/// A delete keeps the collection's invariant.
pub proof fn lemma_deleted_wf(s: Seq<Expense>, next: nat, id: u32)
    requires
        state_wf(s, next),
    ensures
        state_wf(without_id(s, id), next),
{
    if has_id(s, id) {
        let k = choose|k: int| 0 <= k < s.len() && s[k].id == id;
        lemma_without_present_id(s, k);
        lemma_remove_wf(s, k);
        let r = s.remove(k);
        assert forall|i: int| 0 <= i < r.len() implies (#[trigger] r[i]).id < next by {
            if i < k {
                assert(r[i] == s[i]);
            } else {
                assert(r[i] == s[i + 1]);
            }
        }
    } else {
        lemma_without_missing_id(s, id);
    }
}

/// Over any sequence of creates and deletes, the ids that the creates hand
/// out rise strictly, one by one from the next id, above every id present at
/// the start, so no id is handed out twice, also after a delete; and the
/// collection's invariant, unique ids included, holds throughout.
pub proof fn lemma_ids_never_reused(s: Seq<Expense>, next: nat, cs: Seq<Change>, today: Date)
    requires
        state_wf(s, next),
        today.wf(),
    ensures
        state_wf(run(s, next, cs, today).0, run(s, next, cs, today).1),
        run(s, next, cs, today).1 == next + issued(s, next, cs, today).len(),
        forall|k: int| 0 <= k < issued(s, next, cs, today).len() ==> #[trigger] issued(s, next, cs, today)[k]
            == next + k,
        forall|i: int, j: int|
            0 <= i < j < issued(s, next, cs, today).len() ==> #[trigger] issued(s, next, cs, today)[i]
                < #[trigger] issued(s, next, cs, today)[j],
        forall|i: int, k: int|
            0 <= i < s.len() && 0 <= k < issued(s, next, cs, today).len() ==> (#[trigger] s[i]).id
                < #[trigger] issued(s, next, cs, today)[k],
    decreases cs.len(),
{
    if cs.len() > 0 {
        let d = cs.drop_last();
        lemma_ids_never_reused(s, next, d, today);
        let before = run(s, next, d, today);
        match cs.last() {
            Change::Create(data) => {
                if before.1 <= u32::MAX {
                    lemma_created_wf(before.0, before.1, data, today);
                }
            },
            Change::Delete(id) => {
                lemma_deleted_wf(before.0, before.1, id);
            },
        }
        let is = issued(s, next, cs, today);
        let earlier = issued(s, next, d, today);
        assert forall|k: int| 0 <= k < is.len() implies #[trigger] is[k] == next + k by {
            if k < earlier.len() {
                assert(is[k] == earlier[k]);
            }
        }
        assert forall|i: int, j: int| 0 <= i < j < is.len() implies #[trigger] is[i] < #[trigger] is[j] by {
            assert(is[i] == next + i && is[j] == next + j);
        }
        assert forall|i: int, k: int| 0 <= i < s.len() && 0 <= k < is.len() implies (#[trigger] s[i]).id
            < #[trigger] is[k] by {
            assert(is[k] == next + k);
        }
    }
}

/// Updating an id that no record has changes no field of any record.
pub proof fn lemma_update_missing_id(s: Seq<Expense>, u: UpdateExpense, today: Date)
    requires
        !has_id(s, u.id),
    ensures
        updated_all(s, u, today) == s,
{
    assert forall|i: int| 0 <= i < s.len() implies s[i].id != u.id by {
        if s[i].id == u.id {
            assert(has_id(s, u.id));
        }
    }
    assert(updated_all(s, u, today) =~= s);
}

/// An update that gives only an amount sets that amount, keeps the
/// description and the category, and sets the update date.
pub proof fn lemma_update_amount_only(e: Expense, u: UpdateExpense, today: Date)
    requires
        u.description is None,
        u.category is None,
        u.amount is Some,
    ensures
        updated(e, u, today).amount == u.amount.unwrap(),
        updated(e, u, today).description == e.description,
        updated(e, u, today).category == e.category,
        updated(e, u, today).date_updated == Some(today),
        updated(e, u, today).id == e.id,
        updated(e, u, today).date_created == e.date_created,
{
}

/// A listing by category shows only records that have a category equal to
/// the filter once both are lowercased, never one without a category, and
/// every such record; listing its result again by the same category gives it
/// back unchanged.
pub proof fn lemma_list_by_category(s: Seq<Expense>, f: String)
    ensures
        forall|i: int| 0 <= i < listed(s, Some(f)).len() ==> (#[trigger] listed(s, Some(f))[i]).category is Some
            && in_category(listed(s, Some(f))[i], f@),
        forall|i: int| 0 <= i < s.len() && in_category(s[i], f@) ==> listed(s, Some(f)).contains(#[trigger] s[i]),
        listed(listed(s, Some(f)), Some(f)) == listed(s, Some(f)),
    decreases s.len(),
{
    let p = |e: Expense| in_category(e, f@);
    let l = s.filter(p);
    assert forall|i: int| 0 <= i < l.len() implies (#[trigger] l[i]).category is Some && in_category(l[i], f@) by {
        s.lemma_filter_pred(p, i);
    }
    assert forall|i: int| 0 <= i < s.len() && in_category(s[i], f@) implies l.contains(#[trigger] s[i]) by {
        s.lemma_filter_contains(p, i);
    }
    if s.len() > 0 {
        let d = s.drop_last();
        lemma_list_by_category(d, f);
        assert(d.push(s.last()) =~= s);
        d.lemma_filter_push(s.last(), p);
        if p(s.last()) {
            d.filter(p).lemma_filter_push(s.last(), p);
        }
    } else {
        reveal_with_fuel(Seq::filter, 1);
    }
}

/// With no month and no year, the summary total is the sum of all amounts.
pub proof fn lemma_summary_unfiltered(s: Seq<Expense>)
    ensures
        total(s, None, None) == amount_sum(s),
    decreases s.len(),
{
    if s.len() > 0 {
        lemma_summary_unfiltered(s.drop_last());
    }
}

} // verus!
