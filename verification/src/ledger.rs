//! The payments made to one counterparty: which entries of the statement they
//! are, what they add up to, and what they add up to month by month.

use vstd::prelude::*;
use crate::models::Transaction;
use crate::text::{
    chars_of, contains_chars, contains_text, lemma_text_lt_irreflexive, lemma_text_lt_total,
    lemma_text_lt_transitive, lowercase, text_lt, text_lt_exec, to_lowercase,
};

verus! {

/// How many characters at the start of a date name its month: `2025-03`.
pub const MONTH_KEY_LEN: usize = 7;

/// `description` names `counterparty` somewhere, whatever the case of the
/// letters in either.
pub open spec fn names(description: Seq<char>, counterparty: Seq<char>) -> bool {
    contains_text(lowercase(description), lowercase(counterparty))
}

/// The entries that name `counterparty`.
pub open spec fn paid_to(counterparty: Seq<char>) -> spec_fn(Transaction) -> bool {
    |t: Transaction| names(t.descripcion@, counterparty)
}

/// The size of an amount, whichever way the money went.
pub open spec fn abs_units(u: int) -> nat {
    if u < 0 {
        (-u) as nat
    } else {
        u as nat
    }
}

/// The sizes of the amounts of `records`, added up.
pub open spec fn spend_total(records: Seq<Transaction>) -> nat
    decreases records.len(),
{
    if records.len() == 0 {
        0
    } else {
        spend_total(records.drop_last()) + abs_units(records.last().importe as int)
    }
}

/// The size of the amount `u`.
pub fn size_of_amount(u: i64) -> (r: u64)
    ensures
        r == abs_units(u as int),
{
    if u < 0 {
        (-(u as i128)) as u64
    } else {
        u as u64
    }
}

/// Whether the description of `record` names `counterparty`, whatever the
/// case of the letters in either.
pub fn is_payment_to(record: &Transaction, counterparty: &str) -> (r: bool)
    ensures
        r == names(record.descripcion@, counterparty@),
{
    let description = to_lowercase(record.descripcion.as_str());
    let wanted = to_lowercase(counterparty);
    contains_chars(&chars_of(description.as_str()), &chars_of(wanted.as_str()))
}

/// The entries of `records` that name `counterparty`, in the order in which
/// they stand in `records`.
pub fn payments_to(records: &Vec<Transaction>, counterparty: &str) -> (payments: Vec<Transaction>)
    ensures
        payments@ == records@.filter(paid_to(counterparty@)),
{
    let wanted = to_lowercase(counterparty);
    let wanted_chars = chars_of(wanted.as_str());
    let mut payments: Vec<Transaction> = Vec::new();
    let mut i: usize = 0;
    proof {
        reveal(Seq::filter);
        assert(records@.take(0).filter(paid_to(counterparty@)) =~= Seq::<Transaction>::empty());
    }
    while i < records.len()
        invariant
            i <= records.len(),
            wanted_chars@ == lowercase(counterparty@),
            payments@ == records@.take(i as int).filter(paid_to(counterparty@)),
        decreases records.len() - i,
    {
        let description = to_lowercase(records[i].descripcion.as_str());
        proof {
            assert(records@.take(i + 1) =~= records@.take(i as int).push(records@[i as int]));
            records@.take(i as int).lemma_filter_push(records@[i as int], paid_to(counterparty@));
        }
        if contains_chars(&chars_of(description.as_str()), &wanted_chars) {
            payments.push(records[i].clone());
        }
        i += 1;
    }
    proof {
        assert(records@.take(records.len() as int) =~= records@);
    }
    payments
}

/// Whether a description names a counterparty depends on neither's case:
/// texts that are the same in lowercase name, and are named, alike.
pub proof fn lemma_names_ignores_case(
    description_a: Seq<char>,
    description_b: Seq<char>,
    counterparty_a: Seq<char>,
    counterparty_b: Seq<char>,
)
    requires
        lowercase(description_a) == lowercase(description_b),
        lowercase(counterparty_a) == lowercase(counterparty_b),
    ensures
        names(description_a, counterparty_a) == names(description_b, counterparty_b),
{
}

/// Adding one entry adds the size of its amount, whichever its sign.
pub proof fn lemma_spend_total_push(records: Seq<Transaction>, record: Transaction)
    ensures
        spend_total(records.push(record)) == spend_total(records) + abs_units(
            record.importe as int,
        ),
{
    assert(records.push(record).drop_last() =~= records);
}

/// No amount is larger than `2^63` units, so a total is at most that for each entry.
pub proof fn lemma_spend_total_bound(records: Seq<Transaction>)
    ensures
        spend_total(records) <= records.len() * 0x8000_0000_0000_0000,
    decreases records.len(),
{
    if records.len() > 0 {
        lemma_spend_total_bound(records.drop_last());
    }
}

/// What `records` add up to: the sizes of their amounts, in units.
pub fn total_spend(records: &Vec<Transaction>) -> (total: u128)
    ensures
        total == spend_total(records@),
{
    let mut total: u128 = 0;
    let mut i: usize = 0;
    while i < records.len()
        invariant
            i <= records.len(),
            total == spend_total(records@.take(i as int)),
        decreases records.len() - i,
    {
        proof {
            assert(records@.take(i + 1) =~= records@.take(i as int).push(records@[i as int]));
            lemma_spend_total_push(records@.take(i as int), records@[i as int]);
            lemma_spend_total_bound(records@.take(i as int));
        }
        total = total + size_of_amount(records[i].importe) as u128;
        i += 1;
    }
    proof {
        assert(records@.take(records.len() as int) =~= records@);
    }
    total
}

/// The start date of `record` is long enough to name a month.
pub open spec fn has_month(record: Transaction) -> bool {
    record.fecha_inicio@.len() >= MONTH_KEY_LEN
}

/// The month of `record`: the first [`MONTH_KEY_LEN`] characters of its start date.
pub open spec fn month_key(record: Transaction) -> Seq<char> {
    record.fecha_inicio@.take(MONTH_KEY_LEN as int)
}

/// Some entry of `records` falls in `month`.
pub open spec fn occurs(records: Seq<Transaction>, month: Seq<char>) -> bool {
    exists|i: int| 0 <= i < records.len() && month_key(#[trigger] records[i]) == month
}

/// The sizes of the amounts of those `records` that fall in `month`, added up.
pub open spec fn month_total(records: Seq<Transaction>, month: Seq<char>) -> nat
    decreases records.len(),
{
    if records.len() == 0 {
        0
    } else {
        month_total(records.drop_last(), month) + if month_key(records.last()) == month {
            abs_units(records.last().importe as int)
        } else {
            0
        }
    }
}

/// The totals of the listed `months`, added up.
pub open spec fn sum_over_months(records: Seq<Transaction>, months: Seq<Seq<char>>) -> nat
    decreases months.len(),
{
    if months.len() == 0 {
        0
    } else {
        sum_over_months(records, months.drop_last()) + month_total(records, months.last())
    }
}

/// What was spent in one month.
#[derive(Debug)]
pub struct MonthTotal {
    pub month: String,
    /// In units.
    pub total: u128,
}

/// The months of `entries`, in their order.
pub open spec fn months_of(entries: Seq<MonthTotal>) -> Seq<Seq<char>> {
    Seq::new(entries.len(), |j: int| entries[j].month@)
}

/// Each entry's month comes before the next one's in dictionary order.
pub open spec fn ascending(entries: Seq<MonthTotal>) -> bool {
    forall|i: int, j: int|
        0 <= i < j < entries.len() ==> text_lt(
            (#[trigger] entries[i]).month@,
            (#[trigger] entries[j]).month@,
        )
}

/// Some entry of `entries` is for `month`.
pub open spec fn lists(entries: Seq<MonthTotal>, month: Seq<char>) -> bool {
    exists|j: int| 0 <= j < entries.len() && (#[trigger] entries[j]).month@ == month
}

/// The totals of `entries`, added up.
pub open spec fn sum_of_totals(entries: Seq<MonthTotal>) -> nat
    decreases entries.len(),
{
    if entries.len() == 0 {
        0
    } else {
        sum_of_totals(entries.drop_last()) + entries.last().total as nat
    }
}

/// `entries` is the monthly breakdown of `records`: one entry for each month
/// in which a record falls and for no other, in ascending order of the month,
/// each with what the records of that month add up to.
pub open spec fn is_breakdown(entries: Seq<MonthTotal>, records: Seq<Transaction>) -> bool {
    &&& ascending(entries)
    &&& forall|j: int|
        0 <= j < entries.len() ==> {
            &&& (#[trigger] entries[j]).total == month_total(records, entries[j].month@)
            &&& occurs(records, entries[j].month@)
        }
    &&& forall|i: int|
        0 <= i < records.len() ==> lists(entries, month_key(#[trigger] records[i]))
}

/// Months in which no record falls add nothing.
pub proof fn lemma_month_total_absent(records: Seq<Transaction>, month: Seq<char>)
    requires
        !occurs(records, month),
    ensures
        month_total(records, month) == 0,
    decreases records.len(),
{
    if records.len() > 0 {
        assert(month_key(records[records.len() - 1]) != month);
        assert forall|i: int| 0 <= i < records.drop_last().len() implies month_key(
            #[trigger] records.drop_last()[i],
        ) != month by {
            assert(records.drop_last()[i] == records[i]);
        }
        lemma_month_total_absent(records.drop_last(), month);
    }
}

/// No month holds more than all of them together.
pub proof fn lemma_month_total_bound(records: Seq<Transaction>, month: Seq<char>)
    ensures
        month_total(records, month) <= spend_total(records),
    decreases records.len(),
{
    if records.len() > 0 {
        lemma_month_total_bound(records.drop_last(), month);
    }
}

/// One more record adds the size of its amount to its own month and nothing
/// to any other.
pub proof fn lemma_month_total_push(
    records: Seq<Transaction>,
    record: Transaction,
    month: Seq<char>,
)
    ensures
        month_total(records.push(record), month) == month_total(records, month) + if month_key(
            record,
        ) == month {
            abs_units(record.importe as int)
        } else {
            0
        },
{
    assert(records.push(record).drop_last() =~= records);
}

/// One more record adds the size of its amount to the sum over any list of
/// months that names its month once, and nothing to a list that does not
/// name it.
pub proof fn lemma_sum_over_months_push(
    records: Seq<Transaction>,
    record: Transaction,
    months: Seq<Seq<char>>,
)
    requires
        months.no_duplicates(),
    ensures
        sum_over_months(records.push(record), months) == sum_over_months(records, months)
            + if months.contains(month_key(record)) {
            abs_units(record.importe as int)
        } else {
            0
        },
    decreases months.len(),
{
    if months.len() > 0 {
        let rest = months.drop_last();
        let key = month_key(record);
        lemma_sum_over_months_push(records, record, rest);
        lemma_month_total_push(records, record, months.last());
        if months.last() == key {
            if rest.contains(key) {
                let k = choose|k: int| 0 <= k < rest.len() && rest[k] == key;
                assert(months[k] == months[months.len() - 1]);
            }
            assert(months.contains(key)) by {
                assert(months[months.len() - 1] == key);
            }
        } else {
            if months.contains(key) {
                let k = choose|k: int| 0 <= k < months.len() && months[k] == key;
                assert(rest[k] == key);
            }
            if rest.contains(key) {
                let k = choose|k: int| 0 <= k < rest.len() && rest[k] == key;
                assert(months[k] == key);
            }
        }
    }
}

/// The totals of the months add up to the total of all records, whenever the
/// months are listed once each and none in which a record falls is left out.
pub proof fn lemma_months_sum_to_total(records: Seq<Transaction>, months: Seq<Seq<char>>)
    requires
        months.no_duplicates(),
        forall|i: int| 0 <= i < records.len() ==> months.contains(month_key(#[trigger] records[i])),
    ensures
        sum_over_months(records, months) == spend_total(records),
    decreases records.len(),
{
    if records.len() == 0 {
        assert(records =~= Seq::<Transaction>::empty());
        lemma_sum_over_empty(months);
    } else {
        let init = records.drop_last();
        assert(records =~= init.push(records.last()));
        assert forall|i: int| 0 <= i < init.len() implies months.contains(
            month_key(#[trigger] init[i]),
        ) by {
            assert(init[i] == records[i]);
        }
        lemma_months_sum_to_total(init, months);
        lemma_sum_over_months_push(init, records.last(), months);
        assert(months.contains(month_key(records[records.len() - 1])));
        assert(spend_total(records) == spend_total(init) + abs_units(
            records.last().importe as int,
        ));
    }
}

/// Without records every month is empty.
pub proof fn lemma_sum_over_empty(months: Seq<Seq<char>>)
    ensures
        sum_over_months(Seq::<Transaction>::empty(), months) == 0,
    decreases months.len(),
{
    if months.len() > 0 {
        lemma_sum_over_empty(months.drop_last());
    }
}

/// The totals of a breakdown are the totals of its months.
pub proof fn lemma_sum_of_totals_is_sum_over_months(
    entries: Seq<MonthTotal>,
    records: Seq<Transaction>,
)
    requires
        forall|j: int|
            0 <= j < entries.len() ==> (#[trigger] entries[j]).total == month_total(
                records,
                entries[j].month@,
            ),
    ensures
        sum_of_totals(entries) == sum_over_months(records, months_of(entries)),
    decreases entries.len(),
{
    if entries.len() > 0 {
        assert(months_of(entries).drop_last() =~= months_of(entries.drop_last()));
        assert(entries.drop_last().len() == entries.len() - 1);
        assert forall|j: int| 0 <= j < entries.drop_last().len() implies (
        #[trigger] entries.drop_last()[j]).total == month_total(
            records,
            entries.drop_last()[j].month@,
        ) by {
            assert(entries.drop_last()[j] == entries[j]);
        }
        lemma_sum_of_totals_is_sum_over_months(entries.drop_last(), records);
        assert(entries[entries.len() - 1].total == month_total(records, entries.last().month@));
    }
}

/// The monthly totals of a breakdown add up to the total of all its records.
pub proof fn lemma_breakdown_sums_to_total(entries: Seq<MonthTotal>, records: Seq<Transaction>)
    requires
        is_breakdown(entries, records),
    ensures
        sum_of_totals(entries) == spend_total(records),
{
    let months = months_of(entries);
    assert forall|i: int, j: int| 0 <= i < months.len() && 0 <= j < months.len() && i != j
        implies months[i] != months[j] by {
        lemma_text_lt_irreflexive(months[i]);
        if i < j {
            assert(text_lt(entries[i].month@, entries[j].month@));
        } else {
            assert(text_lt(entries[j].month@, entries[i].month@));
        }
    }
    assert forall|i: int| 0 <= i < records.len() implies months.contains(
        month_key(#[trigger] records[i]),
    ) by {
        assert(lists(entries, month_key(records[i])));
        let j = choose|j: int|
            0 <= j < entries.len() && (#[trigger] entries[j]).month@ == month_key(records[i]);
        assert(months[j] == month_key(records[i]));
    }
    lemma_months_sum_to_total(records, months);
    lemma_sum_of_totals_is_sum_over_months(entries, records);
}

/// A breakdown stays one when a record is added and the entry of its month
/// grows by the size of its amount.
proof fn lemma_breakdown_grow(
    entries: Seq<MonthTotal>,
    records: Seq<Transaction>,
    record: Transaction,
    pos: int,
    grown: MonthTotal,
)
    requires
        is_breakdown(entries, records),
        0 <= pos < entries.len(),
        entries[pos].month@ == month_key(record),
        grown.month@ == month_key(record),
        grown.total == entries[pos].total + abs_units(record.importe as int),
    ensures
        is_breakdown(entries.update(pos, grown), records.push(record)),
{
    let after = entries.update(pos, grown);
    let more = records.push(record);
    assert forall|i: int, j: int| 0 <= i < j < after.len() implies text_lt(
        (#[trigger] after[i]).month@,
        (#[trigger] after[j]).month@,
    ) by {
        assert(text_lt(entries[i].month@, entries[j].month@));
    }
    assert forall|j: int| 0 <= j < after.len() implies {
        &&& (#[trigger] after[j]).total == month_total(more, after[j].month@)
        &&& occurs(more, after[j].month@)
    } by {
        lemma_month_total_push(records, record, after[j].month@);
        if j == pos {
            assert(more[records.len() as int] == record);
        } else {
            lemma_text_lt_irreflexive(entries[pos].month@);
            if j < pos {
                assert(text_lt(entries[j].month@, entries[pos].month@));
            } else {
                assert(text_lt(entries[pos].month@, entries[j].month@));
            }
            assert(entries[j].total == month_total(records, entries[j].month@));
            assert(occurs(records, entries[j].month@));
            let i = choose|i: int|
                0 <= i < records.len() && month_key(#[trigger] records[i]) == entries[j].month@;
            assert(more[i] == records[i]);
        }
    }
    assert forall|i: int| 0 <= i < more.len() implies lists(
        after,
        month_key(#[trigger] more[i]),
    ) by {
        if i < records.len() {
            assert(more[i] == records[i]);
            assert(lists(entries, month_key(records[i])));
            let j = choose|j: int|
                0 <= j < entries.len() && (#[trigger] entries[j]).month@ == month_key(records[i]);
            assert(after[j].month@ == month_key(records[i]));
        } else {
            assert(after[pos].month@ == month_key(more[i]));
        }
    }
}

/// A breakdown stays one when a record of a month that it does not list is
/// added and an entry for that month is put where the order asks for it.
proof fn lemma_breakdown_insert(
    entries: Seq<MonthTotal>,
    records: Seq<Transaction>,
    record: Transaction,
    pos: int,
    added: MonthTotal,
)
    requires
        is_breakdown(entries, records),
        0 <= pos <= entries.len(),
        forall|k: int| 0 <= k < pos ==> text_lt((#[trigger] entries[k]).month@, month_key(record)),
        pos < entries.len() ==> !text_lt(entries[pos].month@, month_key(record))
            && entries[pos].month@ != month_key(record),
        added.month@ == month_key(record),
        added.total == abs_units(record.importe as int),
    ensures
        is_breakdown(entries.insert(pos, added), records.push(record)),
{
    let key = month_key(record);
    let after = entries.insert(pos, added);
    let more = records.push(record);
    assert forall|k: int| pos <= k < entries.len() implies text_lt(
        key,
        (#[trigger] entries[k]).month@,
    ) by {
        lemma_text_lt_total(entries[pos].month@, key);
        if k > pos {
            assert(text_lt(entries[pos].month@, entries[k].month@));
            lemma_text_lt_transitive(key, entries[pos].month@, entries[k].month@);
        }
    }
    lemma_text_lt_irreflexive(key);
    assert(!lists(entries, key)) by {
        if lists(entries, key) {
            let j = choose|j: int| 0 <= j < entries.len() && (#[trigger] entries[j]).month@ == key;
            if j < pos {
                assert(text_lt(entries[j].month@, key));
            } else {
                assert(text_lt(key, entries[j].month@));
            }
        }
    }
    assert(!occurs(records, key)) by {
        if occurs(records, key) {
            let i = choose|i: int| 0 <= i < records.len() && month_key(#[trigger] records[i]) == key;
            assert(lists(entries, month_key(records[i])));
        }
    }
    lemma_month_total_absent(records, key);
    assert forall|i: int, j: int| 0 <= i < j < after.len() implies text_lt(
        (#[trigger] after[i]).month@,
        (#[trigger] after[j]).month@,
    ) by {
        if j < pos {
            assert(text_lt(entries[i].month@, entries[j].month@));
        } else if j == pos {
            assert(text_lt(entries[i].month@, key));
        } else if i < pos {
            assert(text_lt(entries[i].month@, entries[j - 1].month@));
        } else if i == pos {
            assert(text_lt(key, entries[j - 1].month@));
        } else {
            assert(text_lt(entries[i - 1].month@, entries[j - 1].month@));
        }
    }
    assert forall|j: int| 0 <= j < after.len() implies {
        &&& (#[trigger] after[j]).total == month_total(more, after[j].month@)
        &&& occurs(more, after[j].month@)
    } by {
        lemma_month_total_push(records, record, after[j].month@);
        if j == pos {
            assert(more[records.len() as int] == record);
        } else {
            let old_j = if j < pos {
                j
            } else {
                j - 1
            };
            assert(after[j] == entries[old_j]);
            assert(entries[old_j].total == month_total(records, entries[old_j].month@));
            assert(lists(entries, entries[old_j].month@));
            assert(occurs(records, entries[old_j].month@));
            let i = choose|i: int|
                0 <= i < records.len() && month_key(#[trigger] records[i])
                    == entries[old_j].month@;
            assert(more[i] == records[i]);
        }
    }
    assert forall|i: int| 0 <= i < more.len() implies lists(
        after,
        month_key(#[trigger] more[i]),
    ) by {
        if i < records.len() {
            assert(more[i] == records[i]);
            assert(lists(entries, month_key(records[i])));
            let j = choose|j: int|
                0 <= j < entries.len() && (#[trigger] entries[j]).month@ == month_key(records[i]);
            if j < pos {
                assert(after[j].month@ == month_key(records[i]));
            } else {
                assert(after[j + 1].month@ == month_key(records[i]));
            }
        } else {
            assert(after[pos].month@ == month_key(more[i]));
        }
    }
}

/// Whether the start date of `record` is long enough to name a month.
pub fn names_month(record: &Transaction) -> (r: bool)
    ensures
        r == has_month(*record),
{
    record.fecha_inicio.as_str().unicode_len() >= MONTH_KEY_LEN
}

/// The month in which `record` falls.
pub fn month_of(record: &Transaction) -> (month: String)
    requires
        has_month(*record),
    ensures
        month@ == month_key(*record),
{
    record.fecha_inicio.as_str().substring_char(0, MONTH_KEY_LEN).to_owned()
}

/// The monthly breakdown of `records`, in ascending order of the month.
pub fn monthly_totals(records: &Vec<Transaction>) -> (entries: Vec<MonthTotal>)
    requires
        forall|i: int| 0 <= i < records.len() ==> has_month(#[trigger] records[i]),
    ensures
        is_breakdown(entries@, records@),
        sum_of_totals(entries@) == spend_total(records@),
{
    let mut entries: Vec<MonthTotal> = Vec::new();
    let mut i: usize = 0;
    while i < records.len()
        invariant
            i <= records.len(),
            forall|i: int| 0 <= i < records.len() ==> has_month(#[trigger] records[i]),
            is_breakdown(entries@, records@.take(i as int)),
        decreases records.len() - i,
    {
        let month = month_of(&records[i]);
        let amount: u128 = size_of_amount(records[i].importe) as u128;
        let month_chars = chars_of(month.as_str());
        let mut pos: usize = 0;
        while pos < entries.len() && text_lt_exec(
            &chars_of(entries[pos].month.as_str()),
            &month_chars,
        )
            invariant
                pos <= entries.len(),
                month_chars@ == month@,
                forall|k: int| 0 <= k < pos ==> text_lt((#[trigger] entries@[k]).month@, month@),
            decreases entries.len() - pos,
        {
            pos += 1;
        }
        proof {
            assert(records@.take(i + 1) =~= records@.take(i as int).push(records@[i as int]));
        }
        if pos < entries.len() && entries[pos].month == month {
            proof {
                lemma_month_total_bound(records@.take(i as int), month@);
                lemma_spend_total_bound(records@.take(i as int));
                assert(entries@[pos as int].total == month_total(
                    records@.take(i as int),
                    entries@[pos as int].month@,
                ));
            }
            let grown = MonthTotal { month, total: entries[pos].total + amount };
            proof {
                lemma_breakdown_grow(
                    entries@,
                    records@.take(i as int),
                    records@[i as int],
                    pos as int,
                    grown,
                );
            }
            entries.set(pos, grown);
        } else {
            let added = MonthTotal { month, total: amount };
            proof {
                lemma_breakdown_insert(
                    entries@,
                    records@.take(i as int),
                    records@[i as int],
                    pos as int,
                    added,
                );
            }
            entries.insert(pos, added);
        }
        i += 1;
    }
    proof {
        assert(records@.take(records.len() as int) =~= records@);
        lemma_breakdown_sums_to_total(entries@, records@);
    }
    entries
}

} // verus!
