//! The ledger as an ordered sequence of records: fresh identifiers, adding,
//! updating and deleting by identifier, and narrowing to a month.

use crate::date::{is_month, today, Date};
use crate::expense::{date_or, updated, Expense};
use vstd::prelude::*;

verus! {

/// Why a command on the ledger was turned down.
#[derive(Clone, Copy, Debug, PartialEq, Eq, Structural)]
pub enum LedgerError {
    /// The month is not a number from 1 to 12.
    InvalidMonth,
    /// No record carries the identifier.
    NotFound,
    /// The highest identifier is already the largest number there is.
    IdSpaceExhausted,
}

/// A predicate on records that narrows a ledger.
#[derive(Clone, Copy, Debug, PartialEq, Eq, Structural)]
pub enum Filter {
    /// Every record but those with this identifier.
    ExceptId(u32),
    /// The records dated in this month of this year.
    InMonth { month: u32, year: i32 },
}

/// Whether the filter lets the record through.
pub open spec fn keeps(filter: Filter, e: Expense) -> bool {
    match filter {
        Filter::ExceptId(id) => e.id != id,
        Filter::InMonth { month, year } => e.date.in_month_of(month, year),
    }
}

/// The records that the filter lets through, in their order.
pub open spec fn retained(s: Seq<Expense>, filter: Filter) -> Seq<Expense> {
    s.filter(|e: Expense| keeps(filter, e))
}

/// The highest identifier in the ledger; 0 for an empty one.
pub open spec fn max_id(s: Seq<Expense>) -> int
    decreases s.len(),
{
    if s.len() == 0 {
        0
    } else {
        let rest = max_id(s.drop_last());
        if s.last().id > rest {
            s.last().id as int
        } else {
            rest
        }
    }
}

/// Whether some record carries the identifier.
pub open spec fn has_id(s: Seq<Expense>, id: u32) -> bool {
    exists|i: int| 0 <= i < s.len() && (#[trigger] s[i]).id == id
}

/// Whether no two records share an identifier.
pub open spec fn distinct_ids(s: Seq<Expense>) -> bool {
    forall|i: int, j: int| 0 <= i < j < s.len() ==> (#[trigger] s[i]).id != (#[trigger] s[j]).id
}

/// Whether `i` is the place of the first record that carries the identifier.
pub open spec fn is_first_with_id(s: Seq<Expense>, i: int, id: u32) -> bool {
    &&& 0 <= i < s.len()
    &&& s[i].id == id
    &&& forall|j: int| 0 <= j < i ==> (#[trigger] s[j]).id != id
}

/// The place of the first record that carries the identifier.
pub open spec fn first_with_id(s: Seq<Expense>, id: u32) -> int {
    choose|i: int| is_first_with_id(s, i, id)
}

/// The highest identifier is a 32-bit number that no record exceeds, and in
/// a ledger that is not empty some record carries it.
pub proof fn lemma_max_id_is_highest(s: Seq<Expense>)
    ensures
        0 <= max_id(s) <= u32::MAX,
        forall|i: int| 0 <= i < s.len() ==> (#[trigger] s[i]).id <= max_id(s),
        s.len() > 0 ==> exists|i: int| 0 <= i < s.len() && (#[trigger] s[i]).id == max_id(s),
    decreases s.len(),
{
    if s.len() > 0 {
        let front = s.drop_last();
        lemma_max_id_is_highest(front);
        assert forall|i: int| 0 <= i < s.len() implies (#[trigger] s[i]).id <= max_id(s) by {
            if i < front.len() {
                assert(front[i] == s[i]);
            }
        }
        if s.last().id > max_id(front) || front.len() == 0 {
            assert(s[s.len() - 1].id == max_id(s));
        } else {
            let k = choose|k: int| 0 <= k < front.len() && (#[trigger] front[k]).id == max_id(front);
            assert(s[k] == front[k]);
        }
    }
}

/// An identifier above the highest one is carried by no record, so a
/// ledger with distinct identifiers keeps them distinct when a record with
/// such an identifier is appended.
pub proof fn lemma_fresh_id_keeps_distinct(s: Seq<Expense>, e: Expense)
    requires
        e.id > max_id(s),
    ensures
        !has_id(s, e.id),
        distinct_ids(s) ==> distinct_ids(s.push(e)),
        max_id(s.push(e)) == e.id,
{
    lemma_max_id_is_highest(s);
    assert(s.push(e).drop_last() =~= s);
}

/// Whatever is removed from a ledger, its highest identifier does not
/// grow, and the identifier given next lies above every identifier that
/// remains: a gap below a record that is still there is not filled again.
pub proof fn lemma_next_id_ignores_gaps(s: Seq<Expense>, filter: Filter)
    ensures
        max_id(retained(s, filter)) <= max_id(s),
        forall|i: int|
            0 <= i < retained(s, filter).len() ==> (#[trigger] retained(s, filter)[i]).id < max_id(
                retained(s, filter),
            ) + 1,
{
    let kept = retained(s, filter);
    lemma_max_id_is_highest(kept);
    lemma_max_id_is_highest(s);
    if kept.len() > 0 {
        let k = choose|k: int| 0 <= k < kept.len() && (#[trigger] kept[k]).id == max_id(kept);
        s.lemma_filter_contains_rev(|e: Expense| keeps(filter, e), kept[k]);
        assert(s.contains(kept[k]));
    }
}

/// Two sequences with equal tails have equal tails one place further on.
proof fn lemma_skip_one_more(a: Seq<Expense>, i: int, b: Seq<Expense>, k: int)
    requires
        0 <= i < a.len(),
        0 <= k < b.len(),
        a.skip(i) == b.skip(k),
    ensures
        a.skip(i + 1) == b.skip(k + 1),
        a[i] == b[k],
{
    assert(a.skip(i).len() == b.skip(k).len());
    assert(a[i] == a.skip(i)[0]);
    assert(b[k] == b.skip(k)[0]);
    let x = a.skip(i + 1);
    let y = b.skip(k + 1);
    assert(a.skip(i).len() == a.len() - i);
    assert(b.skip(k).len() == b.len() - k);
    assert(a.len() - i == b.len() - k);
    assert forall|j: int| 0 <= j < x.len() implies #[trigger] x[j] == y[j] by {
        assert(a.skip(i)[j + 1] == a[i + 1 + j]);
        assert(b.skip(k)[j + 1] == b[k + 1 + j]);
        assert(x[j] == a[i + 1 + j]);
        assert(y[j] == b[k + 1 + j]);
    }
    assert(x =~= y);
}

/// What pushing one more record does to the records a filter lets through.
proof fn lemma_retained_push(s: Seq<Expense>, e: Expense, filter: Filter)
    ensures
        retained(s.push(e), filter) == if keeps(filter, e) {
            retained(s, filter).push(e)
        } else {
            retained(s, filter)
        },
{
    reveal(Seq::filter);
    assert(s.push(e).drop_last() =~= s);
}

/// The highest identifier in the ledger; 0 for an empty one.
pub fn highest_id(records: &Vec<Expense>) -> (r: u32)
    ensures
        r == max_id(records@),
{
    let mut best: u32 = 0;
    let mut i: usize = 0;
    while i < records.len()
        invariant
            i <= records.len(),
            best == max_id(records@.take(i as int)),
        decreases records.len() - i,
    {
        proof {
            assert(records@.take(i + 1).drop_last() =~= records@.take(i as int));
        }
        if records[i].id > best {
            best = records[i].id;
        }
        i += 1;
    }
    proof {
        assert(records@.take(i as int) =~= records@);
    }
    best
}

/// The identifier for the next record: one more than the highest one
/// present, 1 for an empty ledger; none where that number does not exist.
pub fn next_id(records: &Vec<Expense>) -> (r: Option<u32>)
    ensures
        r.is_some() == (max_id(records@) < u32::MAX),
        r matches Some(id) ==> id == max_id(records@) + 1,
        records@.len() == 0 ==> r == Some(1u32),
{
    let highest = highest_id(records);
    if highest < u32::MAX {
        Some(highest + 1)
    } else {
        None
    }
}

/// The place of the first record that carries the identifier, if any does.
pub fn position(records: &Vec<Expense>, id: u32) -> (r: Option<usize>)
    ensures
        r.is_some() == has_id(records@, id),
        r matches Some(i) ==> i == first_with_id(records@, id) && is_first_with_id(
            records@,
            i as int,
            id,
        ),
{
    let mut i: usize = 0;
    while i < records.len()
        invariant
            i <= records.len(),
            forall|j: int| 0 <= j < i ==> (#[trigger] records@[j]).id != id,
        decreases records.len() - i,
    {
        if records[i].id == id {
            proof {
                assert(is_first_with_id(records@, i as int, id));
                let c = first_with_id(records@, id);
                assert(is_first_with_id(records@, c, id));
                if c < i {
                    assert(records@[c].id != id);
                }
                if i < c {
                    assert(records@[i as int].id != id);
                }
            }
            return Some(i);
        }
        i += 1;
    }
    None
}

/// Appends a record with a fresh identifier and returns that identifier.
/// The record is dated `date`, or `today` where no date is given.
pub fn add_expense(
    records: &mut Vec<Expense>,
    description: String,
    amount: u32,
    date: Option<Date>,
    today: Date,
) -> (r: Result<u32, LedgerError>)
    ensures
        r.is_ok() == (max_id(old(records)@) < u32::MAX),
        r matches Ok(id) ==> {
            &&& id == max_id(old(records)@) + 1
            &&& final(records)@ == old(records)@.push(
                (Expense { id, amount, description, date: date_or(date, today) }),
            )
        },
        r matches Err(e) ==> e == LedgerError::IdSpaceExhausted && final(records)@ == old(records)@,
        old(records)@.len() == 0 ==> r == Ok::<u32, LedgerError>(1u32),
        distinct_ids(old(records)@) ==> distinct_ids(final(records)@),
{
    match next_id(records) {
        Some(id) => {
            let e = Expense::create(id, description, amount, date, today);
            proof {
                lemma_fresh_id_keeps_distinct(records@, e);
            }
            records.push(e);
            Ok(id)
        },
        None => Err(LedgerError::IdSpaceExhausted),
    }
}

/// Applies a partial update to the first record that carries the
/// identifier. Without such a record nothing changes.
pub fn update_expense(
    records: &mut Vec<Expense>,
    id: u32,
    description: Option<String>,
    amount: Option<u32>,
    date: Option<Date>,
) -> (r: Result<(), LedgerError>)
    ensures
        r.is_ok() == has_id(old(records)@, id),
        r matches Err(e) ==> e == LedgerError::NotFound && final(records)@ == old(records)@,
        r.is_ok() ==> final(records)@ == old(records)@.update(
            first_with_id(old(records)@, id),
            updated(
                old(records)@[first_with_id(old(records)@, id)],
                description,
                amount,
                date,
            ),
        ),
        distinct_ids(old(records)@) ==> distinct_ids(final(records)@),
{
    match position(records, id) {
        Some(i) => {
            let ghost before = records@;
            let mut e = records.remove(i);
            e.update(description, amount, date);
            records.insert(i, e);
            proof {
                assert(records@ =~= before.update(i as int, e));
                assert forall|a: int| 0 <= a < records@.len() implies (#[trigger] records@[a]).id
                    == before[a].id by {}
            }
            Ok(())
        },
        None => Err(LedgerError::NotFound),
    }
}

fn filter_keeps(filter: Filter, e: &Expense) -> (r: bool)
    ensures
        r == keeps(filter, *e),
{
    match filter {
        Filter::ExceptId(id) => e.id != id,
        Filter::InMonth { month, year } => e.date.month == month && e.date.year == year,
    }
}

/// Keeps the records that the filter lets through, in their order.
pub fn retain(records: &mut Vec<Expense>, filter: Filter)
    ensures
        final(records)@ == retained(old(records)@, filter),
{
    let ghost before = records@;
    let ghost mut seen: int = 0;
    let mut i: usize = 0;
    proof {
        reveal(Seq::filter);
        assert(before.take(0) =~= Seq::<Expense>::empty());
        assert(records@.take(0) =~= retained(before.take(0), filter));
        assert(records@.skip(0) =~= before.skip(0));
    }
    while i < records.len()
        invariant
            0 <= seen <= before.len(),
            i <= records.len(),
            records@.len() - i == before.len() - seen,
            records@.take(i as int) == retained(before.take(seen), filter),
            records@.skip(i as int) == before.skip(seen),
        decreases records.len() - i,
    {
        let ghost current = records@;
        proof {
            assert(current[i as int] == current.skip(i as int)[0]);
            assert(current[i as int] == before[seen]);
            lemma_retained_push(before.take(seen), before[seen], filter);
            assert(before.take(seen + 1) =~= before.take(seen).push(before[seen]));
        }
        if filter_keeps(filter, &records[i]) {
            proof {
                assert(current.take(i + 1) =~= current.take(i as int).push(current[i as int]));
                lemma_skip_one_more(current, i as int, before, seen);
            }
            i += 1;
        } else {
            records.remove(i);
            proof {
                assert(records@.take(i as int) =~= current.take(i as int));
                lemma_skip_one_more(current, i as int, before, seen);
                assert(records@.skip(i as int) =~= current.skip(i + 1));
            }
        }
        proof {
            seen = seen + 1;
        }
    }
    proof {
        assert(records@.take(i as int) =~= records@);
        assert(before.take(seen) =~= before);
    }
}

/// Removes every record that carries the identifier. Without such a
/// record nothing changes.
pub fn delete_expense(records: &mut Vec<Expense>, id: u32) -> (r: Result<(), LedgerError>)
    ensures
        r.is_ok() == has_id(old(records)@, id),
        r matches Err(e) ==> e == LedgerError::NotFound && final(records)@ == old(records)@,
        r.is_ok() ==> final(records)@ == retained(old(records)@, Filter::ExceptId(id)),
        !has_id(final(records)@, id),
        distinct_ids(old(records)@) ==> distinct_ids(final(records)@),
{
    match position(records, id) {
        Some(_) => {
            retain(records, Filter::ExceptId(id));
            proof {
                lemma_retained_keeps_only(old(records)@, Filter::ExceptId(id));
                if distinct_ids(old(records)@) {
                    lemma_retained_keeps_distinct(old(records)@, Filter::ExceptId(id));
                }
            }
            Ok(())
        },
        None => Err(LedgerError::NotFound),
    }
}

/// Every record that a filter lets through passes it and stood in the
/// ledger before.
pub proof fn lemma_retained_keeps_only(s: Seq<Expense>, filter: Filter)
    ensures
        forall|i: int|
            0 <= i < retained(s, filter).len() ==> keeps(filter, #[trigger] retained(s, filter)[i])
                && s.contains(retained(s, filter)[i]),
        retained(s, filter).len() <= s.len(),
{
    let pred = |e: Expense| keeps(filter, e);
    s.lemma_filter_len(pred);
    assert forall|i: int| 0 <= i < retained(s, filter).len() implies keeps(
        filter,
        #[trigger] retained(s, filter)[i],
    ) && s.contains(retained(s, filter)[i]) by {
        s.lemma_filter_pred(pred, i);
        s.lemma_filter_contains_rev(pred, retained(s, filter)[i]);
    }
}

/// Narrowing a ledger never brings two records with one identifier
/// together: where the identifiers were distinct they stay so.
pub proof fn lemma_retained_keeps_distinct(s: Seq<Expense>, filter: Filter)
    requires
        distinct_ids(s),
    ensures
        distinct_ids(retained(s, filter)),
    decreases s.len(),
{
    reveal(Seq::filter);
    if s.len() > 0 {
        let front = s.drop_last();
        assert forall|i: int, j: int| 0 <= i < j < front.len() implies (#[trigger] front[i]).id != (
        #[trigger] front[j]).id by {
            assert(front[i] == s[i] && front[j] == s[j]);
        }
        lemma_retained_keeps_distinct(front, filter);
        lemma_retained_keeps_only(front, filter);
        let kept = retained(front, filter);
        assert(s =~= front.push(s.last()));
        lemma_retained_push(front, s.last(), filter);
        if keeps(filter, s.last()) {
            let all = kept.push(s.last());
            assert forall|i: int, j: int| 0 <= i < j < all.len() implies (#[trigger] all[i]).id != (
            #[trigger] all[j]).id by {
                assert(all[i] == kept[i]);
                if j < kept.len() {
                    assert(all[j] == kept[j]);
                } else {
                    assert(front.contains(kept[i]));
                    let k = choose|k: int| 0 <= k < front.len() && front[k] == kept[i];
                    assert(s[k] == front[k]);
                    assert(s[s.len() - 1] == all[j]);
                }
            }
        }
    }
}

/// Narrows the ledger to the records dated in `month` of `year`. Without a
/// month the ledger stays whole; a month that is no month is turned down
/// and nothing changes.
pub fn filter_by_month(records: &mut Vec<Expense>, month: Option<u32>, year: i32) -> (r: Result<
    (),
    LedgerError,
>)
    ensures
        r.is_ok() == (month matches Some(m) ==> 1 <= m <= 12),
        r matches Err(e) ==> e == LedgerError::InvalidMonth && final(records)@ == old(records)@,
        r.is_ok() ==> final(records)@ == match month {
            Some(m) => retained(old(records)@, Filter::InMonth { month: m, year }),
            None => old(records)@,
        },
{
    match month {
        Some(m) => {
            if is_month(m) {
                retain(records, Filter::InMonth { month: m, year });
                Ok(())
            } else {
                Err(LedgerError::InvalidMonth)
            }
        },
        None => Ok(()),
    }
}

/// Narrows the ledger to the records dated in `month` of the year that the
/// local clock shows. Records of other years never pass, whatever their
/// month.
pub fn filter_records(records: &mut Vec<Expense>, month: Option<u32>) -> (r: Result<
    (),
    LedgerError,
>)
    ensures
        r.is_ok() == (month matches Some(m) ==> 1 <= m <= 12),
        r matches Err(e) ==> e == LedgerError::InvalidMonth && final(records)@ == old(records)@,
        r.is_ok() && month.is_none() ==> final(records)@ == old(records)@,
        r.is_ok() && month.is_some() ==> exists|year: i32|
            final(records)@ == #[trigger] retained(
                old(records)@,
                Filter::InMonth { month: month.unwrap(), year },
            ),
{
    let year = today().year;
    filter_by_month(records, month, year)
}

} // verus!
