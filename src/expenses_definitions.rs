//! The expense records and the collection that owns them.
use vstd::prelude::*;
use crate::date::{today, Date};
use crate::text::{lower_of, lowercase, parse_i32, parsed_i32};

verus! {

/// One recorded expense.
#[derive(Debug)]
pub struct Expense {
    pub id: u32,
    pub description: String,
    pub amount: u32,
    pub category: Option<String>,
    pub date_created: Date,
    pub date_updated: Option<Date>,
}

/// The fields of a new expense; the collection picks its id and dates.
#[derive(Debug)]
pub struct CreateExpense {
    pub description: String,
    pub amount: u32,
    pub category: Option<String>,
}

/// A partial change to the expense `id`: each present field replaces the current one.
#[derive(Debug)]
pub struct UpdateExpense {
    pub id: u32,
    pub description: Option<String>,
    pub amount: Option<u32>,
    pub category: Option<String>,
}

/// An ordered collection of expenses, in insertion order, with the id that
/// the next create assigns. That id only grows, so an id is never handed out
/// twice, also after its record was deleted.
#[derive(Debug)]
pub struct Expenses {
    expenses: Vec<Expense>,
    next_id: u64,
}

/// Some record of `s` has the id `id`.
pub open spec fn has_id(s: Seq<Expense>, id: u32) -> bool {
    exists|i: int| 0 <= i < s.len() && s[i].id == id
}

/// No two records of `s` share an id.
pub open spec fn ids_unique(s: Seq<Expense>) -> bool {
    forall|i: int, j: int| 0 <= i < s.len() && 0 <= j < s.len() && i != j ==> s[i].id != s[j].id
}

/// The dates of a record are calendar dates.
pub open spec fn dates_wf(e: Expense) -> bool {
    e.date_created.wf() && (e.date_updated matches Some(d) ==> d.wf())
}

/// The invariant of the records of a collection: positive unique ids and
/// valid dates.
pub open spec fn records_wf(s: Seq<Expense>) -> bool {
    ids_unique(s) && forall|i: int| 0 <= i < s.len() ==> (#[trigger] s[i]).id >= 1 && dates_wf(s[i])
}

/// Every id of `s` is below `n`.
pub open spec fn ids_below(s: Seq<Expense>, n: nat) -> bool {
    forall|i: int| 0 <= i < s.len() ==> (#[trigger] s[i]).id < n
}

/// The ids of `s` rise strictly in collection order.
pub open spec fn ids_ascending(s: Seq<Expense>) -> bool {
    forall|i: int, j: int| 0 <= i < j < s.len() ==> (#[trigger] s[i]).id < (#[trigger] s[j]).id
}

/// The invariant of a collection with records `s` and next id `next`: the
/// records hold, the next id is positive and fits an id (or is one past the
/// last id), and it lies above every id present.
pub open spec fn state_wf(s: Seq<Expense>, next: nat) -> bool {
    records_wf(s) && 1 <= next <= u32::MAX + 1 && ids_below(s, next)
}

/// The largest id in `s`, or 0 when `s` is empty.
pub open spec fn max_id(s: Seq<Expense>) -> nat
    decreases s.len(),
{
    if s.len() == 0 {
        0
    } else {
        let m = max_id(s.drop_last());
        if s.last().id > m {
            s.last().id as nat
        } else {
            m
        }
    }
}

/// The record of id `id` that a create of `data` on `today` appends.
pub open spec fn created(id: nat, data: CreateExpense, today: Date) -> Expense {
    Expense {
        id: id as u32,
        description: data.description,
        amount: data.amount,
        category: data.category,
        date_created: today,
        date_updated: None,
    }
}

/// `s` without the records whose id is `id`, the rest in their order.
pub open spec fn without_id(s: Seq<Expense>, id: u32) -> Seq<Expense>
    decreases s.len(),
{
    if s.len() == 0 {
        s
    } else {
        let rest = without_id(s.drop_last(), id);
        if s.last().id == id {
            rest
        } else {
            rest.push(s.last())
        }
    }
}

/// `e` after the partial change `u` made on `today`: each present field of
/// `u` replaces the current one, and the update date becomes `today`.
pub open spec fn updated(e: Expense, u: UpdateExpense, today: Date) -> Expense {
    Expense {
        id: e.id,
        description: match u.description {
            Some(d) => d,
            None => e.description,
        },
        amount: match u.amount {
            Some(a) => a,
            None => e.amount,
        },
        category: match u.category {
            Some(c) => Some(c),
            None => e.category,
        },
        date_created: e.date_created,
        date_updated: Some(today),
    }
}

/// `s` with the change `u` made on `today` to the record whose id is `u.id`.
pub open spec fn updated_all(s: Seq<Expense>, u: UpdateExpense, today: Date) -> Seq<Expense> {
    s.map_values(|e: Expense| if e.id == u.id { updated(e, u, today) } else { e })
}

/// Deleting an id that no record has leaves the collection as it is, and so
/// its length too.
pub proof fn lemma_without_missing_id(s: Seq<Expense>, id: u32)
    requires
        !has_id(s, id),
    ensures
        without_id(s, id) == s,
        without_id(s, id).len() == s.len(),
    decreases s.len(),
{
    if s.len() > 0 {
        assert(!has_id(s.drop_last(), id)) by {
            if has_id(s.drop_last(), id) {
                let k = choose|k: int| 0 <= k < s.drop_last().len() && s.drop_last()[k].id == id;
                assert(s[k].id == id);
            }
        }
        lemma_without_missing_id(s.drop_last(), id);
        assert(s.last().id != id);
        assert(s.drop_last().push(s.last()) =~= s);
    }
}

/// With unique ids, removing the id of the record at `k` removes that record alone.
pub proof fn lemma_without_present_id(s: Seq<Expense>, k: int)
    requires
        ids_unique(s),
        0 <= k < s.len(),
    ensures
        without_id(s, s[k].id) == s.remove(k),
    decreases s.len(),
{
    let id = s[k].id;
    let d = s.drop_last();
    assert(ids_unique(d)) by {
        assert forall|i: int, j: int| 0 <= i < d.len() && 0 <= j < d.len() && i != j implies d[i].id != d[j].id by {
            assert(d[i] == s[i] && d[j] == s[j]);
        }
    }
    if k == s.len() - 1 {
        assert(!has_id(d, id)) by {
            if has_id(d, id) {
                let i = choose|i: int| 0 <= i < d.len() && d[i].id == id;
                assert(s[i].id == id);
            }
        }
        lemma_without_missing_id(d, id);
        assert(s.remove(k) =~= d);
    } else {
        assert(d[k] == s[k]);
        lemma_without_present_id(d, k);
        assert(s.last().id != id);
        assert(d.remove(k).push(s.last()) =~= s.remove(k));
    }
}

/// Removing a record keeps the collection's invariant.
pub proof fn lemma_remove_wf(s: Seq<Expense>, k: int)
    requires
        records_wf(s),
        0 <= k < s.len(),
    ensures
        records_wf(s.remove(k)),
{
    let r = s.remove(k);
    assert forall|i: int| 0 <= i < r.len() implies dates_wf(#[trigger] r[i]) by {
        if i < k {
            assert(r[i] == s[i]);
        } else {
            assert(r[i] == s[i + 1]);
        }
    }
    assert forall|i: int, j: int| 0 <= i < r.len() && 0 <= j < r.len() && i != j implies r[i].id != r[j].id by {
        let si = if i < k { i } else { i + 1 };
        let sj = if j < k { j } else { j + 1 };
        assert(r[i] == s[si] && r[j] == s[sj]);
    }
}

/// `e` has a category, equal to `filter` once both are lowercased.
pub open spec fn in_category(e: Expense, filter: Seq<char>) -> bool {
    e.category matches Some(c) && lower_of(c@) == lower_of(filter)
}

/// The records of `s` that a listing by `category` shows, in order: all of
/// them without a category, else those in that category.
pub open spec fn listed(s: Seq<Expense>, category: Option<String>) -> Seq<Expense> {
    match category {
        None => s,
        Some(f) => s.filter(|e: Expense| in_category(e, f@)),
    }
}

/// `e` was created in the month `month` and in the year that `year` denotes,
/// where each is given; a year that is no integer matches nothing.
pub open spec fn counted(e: Expense, month: Option<u8>, year: Option<String>) -> bool {
    (month matches Some(m) ==> e.date_created.month == m as u32) && (year matches Some(y)
        ==> parsed_i32(y@) == Some(e.date_created.year as int))
}

/// The sum of the amounts of the records of `s` that `counted` selects.
pub open spec fn total(s: Seq<Expense>, month: Option<u8>, year: Option<String>) -> nat
    decreases s.len(),
{
    if s.len() == 0 {
        0
    } else {
        total(s.drop_last(), month, year) + if counted(s.last(), month, year) {
            s.last().amount as nat
        } else {
            0
        }
    }
}

/// The English name of the month `m`, or "Unknown" outside 1 to 12.
pub open spec fn month_name(m: u32) -> &'static str {
    if m == 1 {
        "January"
    } else if m == 2 {
        "February"
    } else if m == 3 {
        "March"
    } else if m == 4 {
        "April"
    } else if m == 5 {
        "May"
    } else if m == 6 {
        "June"
    } else if m == 7 {
        "July"
    } else if m == 8 {
        "August"
    } else if m == 9 {
        "September"
    } else if m == 10 {
        "October"
    } else if m == 11 {
        "November"
    } else if m == 12 {
        "December"
    } else {
        "Unknown"
    }
}

/// A collection with unique ids has at most one record per `u32` value.
pub proof fn lemma_len_bound(s: Seq<Expense>)
    requires
        ids_unique(s),
    ensures
        s.len() <= 0x1_0000_0000,
{
    let ids = s.map_values(|e: Expense| e.id as int);
    assert(ids.no_duplicates()) by {
        assert forall|i: int, j: int| 0 <= i < ids.len() && 0 <= j < ids.len() && i != j implies ids[i] != ids[j] by {
            assert(s[i].id != s[j].id);
        }
    }
    ids.unique_seq_to_set();
    let range = vstd::set_lib::set_int_range(0, 0x1_0000_0000);
    vstd::set_lib::lemma_int_range(0, 0x1_0000_0000);
    assert(ids.to_set().subset_of(range)) by {
        assert forall|x: int| ids.to_set().contains(x) implies range.contains(x) by {
            let i = choose|i: int| 0 <= i < ids.len() && ids[i] == x;
            assert(ids[i] == s[i].id as int);
        }
    }
    vstd::set_lib::lemma_len_subset(ids.to_set(), range);
}

/// A total is at most the largest amount times the number of records.
pub proof fn lemma_total_bound(s: Seq<Expense>, month: Option<u8>, year: Option<String>)
    ensures
        total(s, month, year) <= s.len() * 0xFFFF_FFFF,
    decreases s.len(),
{
    if s.len() > 0 {
        lemma_total_bound(s.drop_last(), month, year);
    }
}

/// Every id of `s` is at most `max_id(s)`, and a nonempty `s` holds that id.
pub proof fn lemma_max_id(s: Seq<Expense>)
    ensures
        forall|i: int| 0 <= i < s.len() ==> s[i].id <= max_id(s),
        s.len() > 0 ==> has_id(s, max_id(s) as u32),
        max_id(s) <= u32::MAX,
    decreases s.len(),
{
    if s.len() > 0 {
        lemma_max_id(s.drop_last());
        let m = max_id(s.drop_last());
        assert forall|i: int| 0 <= i < s.len() implies s[i].id <= max_id(s) by {
            if i < s.len() - 1 {
                assert(s[i] == s.drop_last()[i]);
            }
        }
        if s.len() > 1 && s.last().id <= m {
            let k = choose|k: int| 0 <= k < s.drop_last().len() && s.drop_last()[k].id == m as u32;
            assert(s[k].id == max_id(s));
        } else {
            assert(s[s.len() - 1].id == max_id(s));
        }
    }
}

impl View for Expenses {
    type V = Seq<Expense>;

    closed spec fn view(&self) -> Seq<Expense> {
        self.expenses@
    }
}

impl Expenses {
    /// The id that the next create assigns; past `u32::MAX` none is left.
    pub closed spec fn next_free(&self) -> nat {
        self.next_id as nat
    }

    pub open spec fn wf(&self) -> bool {
        state_wf(self@, self.next_free())
    }

    /// An empty collection.
    pub fn new() -> (r: Self)
        ensures
            r.wf(),
            r@ == Seq::<Expense>::empty(),
            r.next_free() == 1,
    {
        Expenses { expenses: Vec::new(), next_id: 1 }
    }

    /// The number of records.
    pub fn len(&self) -> (r: usize)
        ensures
            r == self@.len(),
    {
        self.expenses.len()
    }

    /// The id that the next create assigns; above `u32::MAX` when none is left.
    pub fn next_id(&self) -> (r: u64)
        ensures
            r == self.next_free(),
    {
        self.next_id
    }

    /// The largest id of `records`, or 0 when there is none.
    fn largest_id(records: &Vec<Expense>) -> (r: u32)
        ensures
            r == max_id(records@),
    {
        let mut m: u32 = 0;
        let mut i: usize = 0;
        while i < records.len()
            invariant
                i <= records@.len(),
                m == max_id(records@.take(i as int)),
            decreases records@.len() - i,
        {
            assert(records@.take(i as int + 1).drop_last() =~= records@.take(i as int));
            if records[i].id > m {
                m = records[i].id;
            }
            i = i + 1;
        }
        assert(records@.take(i as int) =~= records@);
        m
    }

    /// Appends `data` as a new record created on `today`, with the next id,
    /// which lies above every id the collection has held; the next id then
    /// moves up by one. Gives `None`, and changes nothing, when no id is left.
    pub fn add_expense_on(&mut self, data: CreateExpense, today: Date) -> (r: Option<&'static str>)
        requires
            old(self).wf(),
            today.wf(),
        ensures
            final(self).wf(),
            old(self).next_free() <= u32::MAX ==> r == Some("Created successfully!")
                && final(self)@ == old(self)@.push(created(old(self).next_free(), data, today))
                && final(self).next_free() == old(self).next_free() + 1,
            old(self).next_free() > u32::MAX ==> r is None && final(self)@ == old(self)@
                && final(self).next_free() == old(self).next_free(),
            ids_ascending(old(self)@) ==> ids_ascending(final(self)@),
    {
        if self.next_id > 0xFFFF_FFFF {
            return None;
        }
        let id = self.next_id as u32;
        let expense = Expense {
            id,
            description: data.description,
            amount: data.amount,
            category: data.category,
            date_created: today,
            date_updated: None,
        };
        self.expenses.push(expense);
        self.next_id = self.next_id + 1;
        assert(self@.last() == created(old(self).next_free(), data, today));
        assert forall|i: int| 0 <= i < self@.len() implies (#[trigger] self@[i]).id < self.next_free() by {
            if i < old(self)@.len() {
                assert(self@[i] == old(self)@[i]);
            }
        }
        Some("Created successfully!")
    }

    /// Appends `data` as a new record created on the local date of today,
    /// with the next id, which lies above every id the collection has held;
    /// `None`, and no change, when no id is left.
    pub fn add_expense(&mut self, data: CreateExpense) -> (r: Option<&'static str>)
        requires
            old(self).wf(),
        ensures
            final(self).wf(),
            old(self).next_free() <= u32::MAX ==> r == Some("Created successfully!") && exists|d: Date|
                d.wf() && final(self)@ == old(self)@.push(created(old(self).next_free(), data, d))
                && final(self).next_free() == old(self).next_free() + 1,
            old(self).next_free() > u32::MAX ==> r is None && final(self)@ == old(self)@
                && final(self).next_free() == old(self).next_free(),
            ids_ascending(old(self)@) ==> ids_ascending(final(self)@),
    {
        let d = today();
        self.add_expense_on(data, d)
    }

    /// The position of the record whose id is `id`, if there is one.
    fn position_of(&self, id: u32) -> (r: Option<usize>)
        ensures
            r is Some <==> has_id(self@, id),
            r matches Some(k) ==> k < self@.len() && self@[k as int].id == id,
    {
        let mut i: usize = 0;
        while i < self.expenses.len()
            invariant
                i <= self.expenses@.len(),
                forall|j: int| 0 <= j < i ==> self.expenses@[j].id != id,
            decreases self.expenses@.len() - i,
        {
            if self.expenses[i].id == id {
                return Some(i);
            }
            i = i + 1;
        }
        None
    }

    /// Removes the record whose id is `id`, keeping the order of the rest.
    /// Gives `None`, and changes nothing, when no record has that id.
    pub fn delete_expense(&mut self, id: u32) -> (r: Option<&'static str>)
        requires
            old(self).wf(),
        ensures
            final(self).wf(),
            r is Some <==> has_id(old(self)@, id),
            r is Some ==> r == Some("Deleted successfully"),
            final(self)@ == without_id(old(self)@, id),
            final(self).next_free() == old(self).next_free(),
    {
        match self.position_of(id) {
            None => {
                proof {
                    lemma_without_missing_id(self@, id);
                }
                None
            },
            Some(k) => {
                proof {
                    lemma_without_present_id(self@, k as int);
                    lemma_remove_wf(self@, k as int);
                }
                let ghost s = self@;
                self.expenses.remove(k);
                assert forall|i: int| 0 <= i < self@.len() implies (#[trigger] self@[i]).id < self.next_free() by {
                    if i < k {
                        assert(self@[i] == s[i]);
                    } else {
                        assert(self@[i] == s[i + 1]);
                    }
                }
                Some("Deleted successfully")
            },
        }
    }

    /// Applies the partial change `update_expense` on `today` to the record
    /// of its id: present fields replace the current ones and the update date
    /// becomes `today`. Gives `None`, and changes nothing, when no record has that id.
    pub fn update_expense_on(&mut self, update_expense: UpdateExpense, today: Date) -> (r: Option<&'static str>)
        requires
            old(self).wf(),
            today.wf(),
        ensures
            final(self).wf(),
            r is Some <==> has_id(old(self)@, update_expense.id),
            r is Some ==> r == Some("Updated successfully!"),
            final(self)@ == updated_all(old(self)@, update_expense, today),
            final(self).next_free() == old(self).next_free(),
    {
        let ghost u = update_expense;
        match self.position_of(update_expense.id) {
            None => {
                assert(self@ =~= updated_all(self@, u, today));
                None
            },
            Some(k) => {
                let ghost s = self@;
                let mut e = self.expenses.remove(k);
                if let Some(amount) = update_expense.amount {
                    e.amount = amount;
                }
                if let Some(description) = update_expense.description {
                    e.description = description;
                }
                if let Some(category) = update_expense.category {
                    e.category = Some(category);
                }
                e.date_updated = Some(today);
                assert(e == updated(s[k as int], u, today));
                self.expenses.insert(k, e);
                assert(self@ =~= updated_all(s, u, today)) by {
                    assert forall|i: int| 0 <= i < s.len() && i != k implies s[i].id != u.id by {
                        assert(s[i].id != s[k as int].id);
                    }
                }
                assert forall|i: int| 0 <= i < self@.len() implies (#[trigger] self@[i]).id >= 1 && dates_wf(self@[i])
                    && self@[i].id < self.next_free() by {
                    assert(dates_wf(s[i]) && s[i].id >= 1 && s[i].id < self.next_free());
                }
                Some("Updated successfully!")
            },
        }
    }

    /// Applies the partial change `update_expense`, dated the local date of
    /// today, to the record of its id; `None`, and no change, when there is none.
    pub fn update_expense(&mut self, update_expense: UpdateExpense) -> (r: Option<&'static str>)
        requires
            old(self).wf(),
        ensures
            final(self).wf(),
            r is Some <==> has_id(old(self)@, update_expense.id),
            r is Some ==> r == Some("Updated successfully!"),
            exists|d: Date| d.wf() && final(self)@ == updated_all(old(self)@, update_expense, d),
            final(self).next_free() == old(self).next_free(),
    {
        let d = today();
        self.update_expense_on(update_expense, d)
    }

    /// The records in collection order; with a category, only those whose
    /// category equals it once both are lowercased.
    pub fn list_expenses(&self, category: Option<String>) -> (r: Option<Vec<&Expense>>)
        ensures
            r matches Some(v) && v@.map_values(|x: &Expense| *x) == listed(self@, category),
    {
        let ghost c = category;
        let lowered = match category {
            Some(f) => Some(lowercase(&f)),
            None => None,
        };
        let mut v: Vec<&Expense> = Vec::new();
        let mut i: usize = 0;
        while i < self.expenses.len()
            invariant
                i <= self.expenses@.len(),
                c is None ==> lowered is None,
                c matches Some(f) ==> lowered matches Some(l) && l@ == lower_of(f@),
                v@.map_values(|x: &Expense| *x) == listed(self.expenses@.take(i as int), c),
            decreases self.expenses@.len() - i,
        {
            let e = &self.expenses[i];
            let keep = match &lowered {
                None => true,
                Some(l) => match &e.category {
                    Some(cat) => lowercase(cat) == *l,
                    None => false,
                },
            };
            proof {
                let t = self.expenses@.take(i as int);
                assert(self.expenses@.take(i as int + 1) =~= t.push(*e));
                if let Some(f) = c {
                    t.lemma_filter_push(*e, |x: Expense| in_category(x, f@));
                }
            }
            if keep {
                v.push(e);
            }
            assert(v@.map_values(|x: &Expense| *x) =~= listed(self.expenses@.take(i as int + 1), c));
            i = i + 1;
        }
        assert(self.expenses@.take(i as int) =~= self.expenses@);
        Some(v)
    }

    /// The English name of the month `month`, or "Unknown" outside 1 to 12.
    pub fn get_month_name(month: u32) -> (r: &'static str)
        ensures
            r == month_name(month),
    {
        match month {
            1 => "January",
            2 => "February",
            3 => "March",
            4 => "April",
            5 => "May",
            6 => "June",
            7 => "July",
            8 => "August",
            9 => "September",
            10 => "October",
            11 => "November",
            12 => "December",
            _ => "Unknown",
        }
    }

    /// The sum of the amounts of the records created in `month` and `year`,
    /// where given, and the name of `month` where it is given. A year that is
    /// no integer matches no record.
    pub fn summary(&self, month: Option<u8>, year: Option<String>) -> (r: Option<(u64, Option<&'static str>)>)
        requires
            self.wf(),
        ensures
            r matches Some((t, name)) && t == total(self@, month, year) && name == match month {
                Some(m) => Some(month_name(m as u32)),
                None => None,
            },
    {
        let year_flag = match &year {
            Some(y) => Some(parse_i32(y)),
            None => None,
        };
        proof {
            lemma_len_bound(self@);
        }
        let mut sum: u64 = 0;
        let mut i: usize = 0;
        while i < self.expenses.len()
            invariant
                i <= self.expenses@.len() <= 0x1_0000_0000,
                year is None ==> year_flag is None,
                year matches Some(y) ==> year_flag matches Some(p) && (p is Some <==> parsed_i32(y@) is Some)
                    && (p matches Some(v) ==> parsed_i32(y@) == Some(v as int)),
                sum == total(self.expenses@.take(i as int), month, year),
            decreases self.expenses@.len() - i,
        {
            let e = &self.expenses[i];
            let mut matches = true;
            if let Some(m) = month {
                if e.date_created.month != m as u32 {
                    matches = false;
                }
            }
            if let Some(p) = year_flag {
                match p {
                    Some(y) => {
                        if e.date_created.year != y {
                            matches = false;
                        }
                    },
                    None => {
                        matches = false;
                    },
                }
            }
            proof {
                let t = self.expenses@.take(i as int);
                assert(self.expenses@.take(i as int + 1).drop_last() =~= t);
                lemma_total_bound(t, month, year);
            }
            if matches {
                sum = sum + e.amount as u64;
            }
            i = i + 1;
        }
        assert(self.expenses@.take(i as int) =~= self.expenses@);
        let name = match month {
            Some(m) => Some(Self::get_month_name(m as u32)),
            None => None,
        };
        Some((sum, name))
    }

    /// A collection of `records`, in their order, whose next id is `next_id`,
    /// or one above the largest id when it is not given. `None` unless the
    /// ids are positive and unique, the dates valid, and a given next id lies
    /// above every id and is at most one past `u32::MAX`.
    pub fn from_records(records: Vec<Expense>, next_id: Option<u64>) -> (r: Option<Expenses>)
        ensures
            r is Some <==> records_wf(records@) && (next_id matches Some(n) ==> 1 <= n <= u32::MAX + 1
                && ids_below(records@, n as nat)),
            r matches Some(c) ==> c@ == records@ && c.wf() && c.next_free() == match next_id {
                Some(n) => n as nat,
                None => max_id(records@) + 1,
            },
    {
        let mut i: usize = 0;
        while i < records.len()
            invariant
                i <= records@.len(),
                records_wf(records@.take(i as int)),
            decreases records@.len() - i,
        {
            let e = &records[i];
            let created_ok = e.date_created.is_valid();
            let updated_ok = match &e.date_updated {
                Some(d) => d.is_valid(),
                None => true,
            };
            if !(e.id >= 1 && created_ok && updated_ok) {
                assert(!records_wf(records@)) by {
                    assert(!(records@[i as int].id >= 1 && dates_wf(records@[i as int])));
                }
                return None;
            }
            let mut j: usize = 0;
            while j < i
                invariant
                    j <= i < records@.len(),
                    forall|k: int| 0 <= k < j ==> records@[k].id != records@[i as int].id,
                decreases i - j,
            {
                if records[j].id == records[i].id {
                    assert(!records_wf(records@)) by {
                        assert(records@[j as int].id == records@[i as int].id);
                    }
                    return None;
                }
                j = j + 1;
            }
            let ghost t = records@.take(i as int + 1);
            assert(records_wf(t)) by {
                assert forall|a: int| 0 <= a < t.len() implies (#[trigger] t[a]).id >= 1 && dates_wf(t[a]) by {
                    if a < i {
                        assert(t[a] == records@.take(i as int)[a]);
                    }
                }
                assert forall|a: int, b: int| 0 <= a < t.len() && 0 <= b < t.len() && a != b implies t[a].id
                    != t[b].id by {
                    if a < i && b < i {
                        assert(t[a] == records@.take(i as int)[a]);
                        assert(t[b] == records@.take(i as int)[b]);
                    }
                }
            }
            i = i + 1;
        }
        assert(records@.take(i as int) =~= records@);
        let largest = Self::largest_id(&records);
        proof {
            lemma_max_id(records@);
        }
        let next: u64 = match next_id {
            Some(n) => {
                if n < 1 || n > 0x1_0000_0000 {
                    return None;
                }
                let mut j: usize = 0;
                while j < records.len()
                    invariant
                        j <= records@.len(),
                        next_id == Some(n),
                        ids_below(records@.take(j as int), n as nat),
                    decreases records@.len() - j,
                {
                    if records[j].id as u64 >= n {
                        assert(!ids_below(records@, n as nat)) by {
                            assert(records@[j as int].id >= n);
                        }
                        return None;
                    }
                    assert forall|a: int| 0 <= a < j + 1 implies (#[trigger] records@.take(j as int + 1)[a]).id < n by {
                        if a < j {
                            assert(records@.take(j as int + 1)[a] == records@.take(j as int)[a]);
                        }
                    }
                    j = j + 1;
                }
                assert(records@.take(j as int) =~= records@);
                n
            },
            None => largest as u64 + 1,
        };
        Some(Expenses { expenses: records, next_id: next })
    }

    /// The records, in collection order.
    pub fn records(&self) -> (r: &Vec<Expense>)
        ensures
            r@ == self@,
    {
        &self.expenses
    }
}

} // verus!
