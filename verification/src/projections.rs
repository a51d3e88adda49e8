//! What the debts will ask for, month by month: the pending
//! installments of the active debts that fall due in the months to
//! come, summed for each debt and month and gathered by month.

use crate::calendar::{
    is_valid_date, iso_date_text, parsed_iso_date, six_months_after, six_months_later, MAX_YEAR,
};
use crate::errors::LedgerError;
use crate::ledger::{
    find, first_index, lemma_first_index_found, lemma_first_index_missing, position, Keyed, Ledger,
    LedgerView, Row,
};
use crate::models::{
    lemma_views_after_push, views_of, DebtProjectionEntry, DebtProjectionEntryView, InstallmentView,
    MonthlyProjection, MonthlyProjectionView,
};
use crate::ordering::{in_order, rows_of, sort, unkeyed, Copied, SortableView, SortKey, SortKeyView};
use crate::text::{is_text_before, text_before};
use vstd::prelude::*;
use vstd::string::StrSliceExecFns;

verus! {

/// What one debt asks for in one month: the sum of its pending
/// installments that fall due in the month.
#[derive(Clone, Debug, PartialEq, Eq)]
pub struct ProjectionRow {
    /// The debt.
    pub debt_id: String,
    /// Its description.
    pub debt_description: String,
    /// The month, as year and month with a hyphen between them.
    pub month: String,
    /// Sum of the installments.
    pub amount: i64,
}

/// What a `ProjectionRow` holds, as mathematical values.
pub struct ProjectionRowView {
    pub debt_id: Seq<char>,
    pub debt_description: Seq<char>,
    pub month: Seq<char>,
    pub amount: int,
}

impl View for ProjectionRow {
    type V = ProjectionRowView;

    open spec fn view(&self) -> ProjectionRowView {
        ProjectionRowView {
            debt_id: self.debt_id@,
            debt_description: self.debt_description@,
            month: self.month@,
            amount: self.amount as int,
        }
    }
}

impl Keyed for MonthlyProjectionView {
    open spec fn key(self) -> Seq<char> {
        self.month
    }
}

impl Row for MonthlyProjection {
    fn id_text(&self) -> (r: &String) {
        &self.month
    }
}

/// The entry of a debt in the projection of a month.
pub open spec fn entry_of(row: ProjectionRowView) -> DebtProjectionEntryView {
    DebtProjectionEntryView {
        debt_id: row.debt_id,
        debt_description: row.debt_description,
        amount: row.amount,
    }
}

/// The months with one more row: its entry is added to the month it
/// belongs to, and to the total of that month; a month that is not yet
/// among them comes last. `AmountOverflow` where a total does not fit
/// an amount.
pub open spec fn with_row(months: Seq<MonthlyProjectionView>, row: ProjectionRowView) -> Result<
    Seq<MonthlyProjectionView>,
    LedgerError,
> {
    match position(months, row.month) {
        Some(at) => if i64::MIN <= months[at].total + row.amount <= i64::MAX {
            Ok(
                months.update(
                    at,
                    MonthlyProjectionView {
                        month: months[at].month,
                        debts: months[at].debts.push(entry_of(row)),
                        total: months[at].total + row.amount,
                    },
                ),
            )
        } else {
            Err(LedgerError::AmountOverflow)
        },
        None => Ok(
            months.push(
                MonthlyProjectionView {
                    month: row.month,
                    debts: seq![entry_of(row)],
                    total: row.amount,
                },
            ),
        ),
    }
}

/// The rows gathered by month: one projection for each month, in the
/// order in which the months first appear, each with the entries of its
/// rows in their order and the sum of them.
pub open spec fn grouped_by_month(rows: Seq<ProjectionRowView>) -> Result<
    Seq<MonthlyProjectionView>,
    LedgerError,
>
    decreases rows.len(),
{
    if rows.len() == 0 {
        Ok(Seq::empty())
    } else {
        match grouped_by_month(rows.drop_last()) {
            Err(e) => Err(e),
            Ok(months) => with_row(months, rows.last()),
        }
    }
}

/// Sum of the amounts of the entries.
pub open spec fn entries_total(entries: Seq<DebtProjectionEntryView>) -> int
    decreases entries.len(),
{
    if entries.len() == 0 {
        0
    } else {
        entries_total(entries.drop_last()) + entries.last().amount
    }
}

/// Whether each month stands once, holds at least one entry, and has
/// the sum of its entries as its total.
pub open spec fn are_sound_projections(months: Seq<MonthlyProjectionView>) -> bool {
    &&& forall|i: int, j: int|
        0 <= i < j < months.len() ==> (#[trigger] months[i]).month != (#[trigger] months[j]).month
    &&& forall|i: int|
        0 <= i < months.len() ==> (#[trigger] months[i]).total == entries_total(months[i].debts)
            && months[i].debts.len() > 0
}

/// Gathering rows by month gives each month once, with the sum of its
/// entries as its total.
pub proof fn lemma_grouped_is_sound(rows: Seq<ProjectionRowView>)
    ensures
        grouped_by_month(rows) matches Ok(months) ==> are_sound_projections(months),
    decreases rows.len(),
{
    if rows.len() > 0 {
        lemma_grouped_is_sound(rows.drop_last());
        if let Ok(before) = grouped_by_month(rows.drop_last()) {
            if let Ok(months) = with_row(before, rows.last()) {
                let row = rows.last();
                crate::ledger::lemma_position_is_first(before, row.month);
                match position(before, row.month) {
                    Some(at) => {
                        assert(months[at].debts.drop_last() =~= before[at].debts);
                        assert forall|i: int, j: int| 0 <= i < j < months.len() implies (
                        #[trigger] months[i]).month != (#[trigger] months[j]).month by {
                            assert(before[i].month != before[j].month);
                        }
                        assert forall|i: int| 0 <= i < months.len() implies (
                        #[trigger] months[i]).total == entries_total(months[i].debts)
                            && months[i].debts.len() > 0 by {
                            if i != at {
                                assert(months[i] == before[i]);
                            }
                        }
                    },
                    None => {
                        assert(months.last().debts.drop_last() =~= Seq::<
                            DebtProjectionEntryView,
                        >::empty());
                        assert forall|i: int, j: int| 0 <= i < j < months.len() implies (
                        #[trigger] months[i]).month != (#[trigger] months[j]).month by {
                            if j == before.len() {
                                assert(before[i].key() != row.month);
                            } else {
                                assert(before[i].month != before[j].month);
                            }
                        }
                        assert forall|i: int| 0 <= i < months.len() implies (
                        #[trigger] months[i]).total == entries_total(months[i].debts)
                            && months[i].debts.len() > 0 by {
                            if i < before.len() {
                                assert(months[i] == before[i]);
                            } else {
                                let entries = months[i].debts;
                                assert(entries =~= seq![entry_of(row)]);
                                assert(entries_total(entries.drop_last()) == 0);
                                assert(entries.last() == entry_of(row));
                            }
                        }
                    },
                }
            }
        }
    }
}

/// Gathers by month what each debt asks for in each month: one
/// projection for each month, in the order in which the months first
/// appear among the rows, each with what every debt asks for and the
/// sum over the debts. Fails with `AmountOverflow` exactly where the
/// total of a month does not fit an amount.
pub fn group_by_month(rows: Vec<ProjectionRow>) -> (r: Result<
    Vec<MonthlyProjection>,
    LedgerError,
>)
    ensures
        match r {
            Ok(months) => grouped_by_month(views_of(rows@)) == Ok::<
                Seq<MonthlyProjectionView>,
                LedgerError,
            >(views_of(months@)),
            Err(e) => grouped_by_month(views_of(rows@)) == Err::<
                Seq<MonthlyProjectionView>,
                LedgerError,
            >(e),
        },
{
    let mut months: Vec<MonthlyProjection> = Vec::new();
    let mut failed = false;
    let mut i: usize = 0;
    proof {
        assert(views_of(months@) =~= Seq::<MonthlyProjectionView>::empty());
    }
    while i < rows.len()
        invariant
            i <= rows.len(),
            grouped_by_month(views_of(rows@).take(i as int)) == if failed {
                Err::<Seq<MonthlyProjectionView>, LedgerError>(LedgerError::AmountOverflow)
            } else {
                Ok::<Seq<MonthlyProjectionView>, LedgerError>(views_of(months@))
            },
        decreases rows.len() - i,
    {
        proof {
            assert(views_of(rows@).take(i + 1).drop_last() =~= views_of(rows@).take(i as int));
        }
        if !failed {
            let row = &rows[i];
            let entry = DebtProjectionEntry {
                debt_id: row.debt_id.clone(),
                debt_description: row.debt_description.clone(),
                amount: row.amount,
            };
            match find(&months, row.month.as_str()) {
                Some(at) => {
                    let total: i128 = months[at].total as i128 + row.amount as i128;
                    if total < i64::MIN as i128 || total > i64::MAX as i128 {
                        failed = true;
                    } else {
                        let ghost before = months@;
                        let mut month = months.remove(at);
                        proof {
                            lemma_views_after_push(month.debts@, entry);
                        }
                        month.total = total as i64;
                        month.debts.push(entry);
                        proof {
                            assert(views_of(months@.insert(at as int, month)) =~= views_of(
                                before,
                            ).update(at as int, month@));
                        }
                        months.insert(at, month);
                    }
                },
                None => {
                    let mut debts: Vec<DebtProjectionEntry> = Vec::new();
                    proof {
                        assert(views_of(debts@.push(entry)) =~= seq![entry@]);
                    }
                    debts.push(entry);
                    let month = MonthlyProjection {
                        month: row.month.clone(),
                        debts,
                        total: row.amount,
                    };
                    proof {
                        lemma_views_after_push(months@, month);
                    }
                    months.push(month);
                },
            }
        }
        i = i + 1;
    }
    proof {
        assert(views_of(rows@).take(rows.len() as int) =~= views_of(rows@));
    }
    if failed {
        Err(LedgerError::AmountOverflow)
    } else {
        Ok(months)
    }
}

impl Copied for ProjectionRow {
    fn duplicate(&self) -> (r: ProjectionRow) {
        ProjectionRow {
            debt_id: self.debt_id.clone(),
            debt_description: self.debt_description.clone(),
            month: self.month.clone(),
            amount: self.amount,
        }
    }
}

/// The month of a day given as text: its year and month, which are its
/// first seven characters.
pub open spec fn month_of(day: Seq<char>) -> Seq<char> {
    if day.len() < 7 {
        day
    } else {
        day.take(7)
    }
}

/// Whether the installment is asked for from `today` until `until`: it
/// is pending, its debt is there and active, and it falls due on
/// `today` or later and before `until`. Days are compared as texts.
pub open spec fn is_due_within(
    ledger: LedgerView,
    installment: InstallmentView,
    today: Seq<char>,
    until: Seq<char>,
) -> bool {
    &&& installment.status == "pending"@
    &&& !text_before(installment.due_date, today)
    &&& text_before(installment.due_date, until)
    &&& position(ledger.debts, installment.debt_id) matches Some(d)
    &&& ledger.debts[d].is_active == 1
}

/// What the installment asks for: its amount, for its debt, in the
/// month in which it falls due.
pub open spec fn asked_by(ledger: LedgerView, installment: InstallmentView) -> ProjectionRowView {
    ProjectionRowView {
        debt_id: installment.debt_id,
        debt_description: ledger.debts[position(
            ledger.debts,
            installment.debt_id,
        )->0].description,
        month: month_of(installment.due_date),
        amount: installment.amount,
    }
}

/// The rows that are for a debt and a month.
pub open spec fn is_for(debt_id: Seq<char>, month: Seq<char>) -> spec_fn(
    ProjectionRowView,
) -> bool {
    |row: ProjectionRowView| row.debt_id == debt_id && row.month == month
}

/// The rows with what one more installment asks for: added to the row
/// of its debt and month, or as a new row, last, where there is none
/// yet. `AmountOverflow` where a sum does not fit an amount.
pub open spec fn with_asked(rows: Seq<ProjectionRowView>, asked: ProjectionRowView) -> Result<
    Seq<ProjectionRowView>,
    LedgerError,
> {
    match first_index(rows, is_for(asked.debt_id, asked.month)) {
        Some(at) => if i64::MIN <= rows[at].amount + asked.amount <= i64::MAX {
            Ok(
                rows.update(
                    at,
                    ProjectionRowView { amount: rows[at].amount + asked.amount, ..rows[at] },
                ),
            )
        } else {
            Err(LedgerError::AmountOverflow)
        },
        None => Ok(rows.push(asked)),
    }
}

/// What each debt asks for in each month from `today` until `until`,
/// over the installments given: one row for each debt and month, in the
/// order in which they first appear.
pub open spec fn asked_within(
    ledger: LedgerView,
    installments: Seq<InstallmentView>,
    today: Seq<char>,
    until: Seq<char>,
) -> Result<Seq<ProjectionRowView>, LedgerError>
    decreases installments.len(),
{
    if installments.len() == 0 {
        Ok(Seq::empty())
    } else {
        match asked_within(ledger, installments.drop_last(), today, until) {
            Err(e) => Err(e),
            Ok(rows) => if is_due_within(ledger, installments.last(), today, until) {
                with_asked(rows, asked_by(ledger, installments.last()))
            } else {
                Ok(rows)
            },
        }
    }
}

/// A row with what it is ordered by: its month, then the description of
/// its debt.
pub open spec fn keyed_row(row: ProjectionRowView) -> SortableView<ProjectionRowView> {
    SortableView {
        keys: seq![SortKeyView::Text(row.month), SortKeyView::Text(row.debt_description)],
        descending: false,
        row,
    }
}

/// The rows, each with what it is ordered by.
pub open spec fn keyed_rows(rows: Seq<ProjectionRowView>) -> Seq<SortableView<ProjectionRowView>> {
    rows.map_values(|row: ProjectionRowView| keyed_row(row))
}

/// What the debts ask for from `today` until `until`, month by month:
/// over the pending installments of active debts that fall due on
/// `today` or later and before `until`, the sum for each debt and
/// month; the months in their order, and within a month the debts by
/// their description; and for each month the sum over its debts.
/// `AmountOverflow` where a sum does not fit an amount.
pub open spec fn projections_between(
    ledger: LedgerView,
    today: Seq<char>,
    until: Seq<char>,
) -> Result<Seq<MonthlyProjectionView>, LedgerError> {
    match asked_within(ledger, ledger.installments, today, until) {
        Err(e) => Err(e),
        Ok(rows) => grouped_by_month(rows_of(in_order(keyed_rows(rows)))),
    }
}

/// The month of a day given as text.
fn month_text(day: &str) -> (r: String)
    ensures
        r@ == month_of(day@),
{
    let length: usize = day.unicode_len();
    if length < 7 {
        day.to_owned()
    } else {
        let month = day.substring_char(0, 7);
        proof {
            assert(day@.subrange(0, 7) =~= day@.take(7));
        }
        month.to_owned()
    }
}

/// What each debt asks for in each month from `today` until `until`.
fn gather_asked(ledger: &Ledger, today: &str, until: &str) -> (r: Result<
    Vec<ProjectionRow>,
    LedgerError,
>)
    ensures
        match r {
            Ok(rows) => asked_within(ledger@, ledger@.installments, today@, until@) == Ok::<
                Seq<ProjectionRowView>,
                LedgerError,
            >(views_of(rows@)),
            Err(e) => e == LedgerError::AmountOverflow && asked_within(
                ledger@,
                ledger@.installments,
                today@,
                until@,
            ) == Err::<Seq<ProjectionRowView>, LedgerError>(e),
        },
{
    let pending = "pending".to_owned();
    let mut rows: Vec<ProjectionRow> = Vec::new();
    let mut failed = false;
    let mut i: usize = 0;
    proof {
        assert(views_of(rows@) =~= Seq::<ProjectionRowView>::empty());
    }
    while i < ledger.installments.len()
        invariant
            i <= ledger.installments.len(),
            pending@ == "pending"@,
            asked_within(ledger@, ledger@.installments.take(i as int), today@, until@)
                == if failed {
                Err::<Seq<ProjectionRowView>, LedgerError>(LedgerError::AmountOverflow)
            } else {
                Ok::<Seq<ProjectionRowView>, LedgerError>(views_of(rows@))
            },
        decreases ledger.installments.len() - i,
    {
        proof {
            assert(ledger@.installments.take(i + 1).drop_last() =~= ledger@.installments.take(
                i as int,
            ));
        }
        let installment = &ledger.installments[i];
        if !failed && installment.status == pending && !is_text_before(
            installment.due_date.as_str(),
            today,
        ) && is_text_before(installment.due_date.as_str(), until) {
            match find(&ledger.debts, installment.debt_id.as_str()) {
                Some(d) => {
                    if ledger.debts[d].is_active == 1 {
                        let asked = ProjectionRow {
                            debt_id: installment.debt_id.clone(),
                            debt_description: ledger.debts[d].description.clone(),
                            month: month_text(installment.due_date.as_str()),
                            amount: installment.amount,
                        };
                        assert(asked@ == asked_by(ledger@, installment@));
                        match find_row(&rows, &asked.debt_id, &asked.month) {
                            Some(at) => {
                                let sum: i128 = rows[at].amount as i128 + asked.amount as i128;
                                if sum < i64::MIN as i128 || sum > i64::MAX as i128 {
                                    failed = true;
                                } else {
                                    let ghost before = rows@;
                                    let mut row = rows.remove(at);
                                    row.amount = sum as i64;
                                    proof {
                                        assert(views_of(rows@.insert(at as int, row))
                                            =~= views_of(before).update(at as int, row@));
                                    }
                                    rows.insert(at, row);
                                }
                            },
                            None => {
                                proof {
                                    lemma_views_after_push(rows@, asked);
                                }
                                rows.push(asked);
                            },
                        }
                    }
                },
                None => {},
            }
        }
        i = i + 1;
    }
    proof {
        assert(ledger@.installments.take(ledger.installments.len() as int)
            =~= ledger@.installments);
    }
    if failed {
        Err(LedgerError::AmountOverflow)
    } else {
        Ok(rows)
    }
}

/// Where the row for the debt and the month stands.
fn find_row(rows: &Vec<ProjectionRow>, debt_id: &String, month: &String) -> (r: Option<usize>)
    ensures
        match r {
            Some(at) => first_index(views_of(rows@), is_for(debt_id@, month@)) == Some(at as int)
                && at < rows.len(),
            None => first_index(views_of(rows@), is_for(debt_id@, month@)) is None,
        },
{
    let mut i: usize = 0;
    while i < rows.len()
        invariant
            i <= rows.len(),
            forall|j: int|
                0 <= j < i ==> !is_for(debt_id@, month@)(#[trigger] views_of(rows@)[j]),
        decreases rows.len() - i,
    {
        if rows[i].debt_id == *debt_id && rows[i].month == *month {
            proof {
                lemma_first_index_found(views_of(rows@), is_for(debt_id@, month@), i as int);
            }
            return Some(i);
        }
        i = i + 1;
    }
    proof {
        lemma_first_index_missing(views_of(rows@), is_for(debt_id@, month@));
    }
    None
}

/// What the debts ask for from `today` until `until`, month by month:
/// see `projections_between`. Fails with `AmountOverflow` exactly where
/// a sum does not fit an amount. Nothing is changed.
pub fn get_payment_projections_between(ledger: &Ledger, today: &str, until: &str) -> (r: Result<
    Vec<MonthlyProjection>,
    LedgerError,
>)
    ensures
        match r {
            Ok(months) => projections_between(ledger@, today@, until@) == Ok::<
                Seq<MonthlyProjectionView>,
                LedgerError,
            >(views_of(months@)),
            Err(e) => projections_between(ledger@, today@, until@) == Err::<
                Seq<MonthlyProjectionView>,
                LedgerError,
            >(e),
        },
{
    let asked = match gather_asked(ledger, today, until) {
        Ok(asked) => asked,
        Err(e) => {
            return Err(e);
        },
    };
    let mut keyed: Vec<crate::ordering::Sortable<ProjectionRow>> = Vec::new();
    let mut i: usize = 0;
    while i < asked.len()
        invariant
            i <= asked.len(),
            keyed.len() == i,
            forall|k: int|
                0 <= k < i ==> (#[trigger] keyed[k])@ == keyed_rows(views_of(asked@))[k],
        decreases asked.len() - i,
    {
        let mut keys: Vec<SortKey> = Vec::new();
        keys.push(SortKey::Text(asked[i].month.clone()));
        keys.push(SortKey::Text(asked[i].debt_description.clone()));
        proof {
            assert(views_of(keys@) =~= keyed_row(asked[i as int]@).keys);
        }
        keyed.push(crate::ordering::Sortable { keys, descending: false, row: asked[i].duplicate() });
        i = i + 1;
    }
    proof {
        assert(views_of(keyed@) =~= keyed_rows(views_of(asked@)));
    }
    group_by_month(unkeyed(sort(&keyed)))
}

/// What the debts ask for in the six months from `today`, month by
/// month: `projections_between` today and the day six months after it.
/// `InvalidDay` where `today` is no date or that day lies past the last
/// year that a date can hold.
pub open spec fn projections_from(ledger: LedgerView, today: Seq<char>, read: Option<
    (int, int, int),
>) -> Result<Seq<MonthlyProjectionView>, LedgerError> {
    match read {
        None => Err(LedgerError::InvalidDay),
        Some(day) => {
            let until = six_months_after(day);
            if until.0 > MAX_YEAR {
                Err(LedgerError::InvalidDay)
            } else {
                projections_between(ledger, today, iso_date_text(until.0, until.1, until.2))
            }
        },
    }
}

/// What the debts ask for in the next six months, month by month: the
/// pending installments of active debts that fall due from `today`, and
/// before the day six months after it, summed for each debt and month
/// and for each month. What `today` reads as is `parsed_iso_date`; for
/// what follows from it, see `projections_from`.
pub fn get_payment_projections(ledger: &Ledger, today: &str) -> (r: Result<
    Vec<MonthlyProjection>,
    LedgerError,
>)
    ensures
        match r {
            Ok(months) => projections_from(ledger@, today@, parsed_iso_date(today@)) == Ok::<
                Seq<MonthlyProjectionView>,
                LedgerError,
            >(views_of(months@)),
            Err(e) => projections_from(ledger@, today@, parsed_iso_date(today@)) == Err::<
                Seq<MonthlyProjectionView>,
                LedgerError,
            >(e),
        },
        parsed_iso_date(today@) matches Some(day) ==> is_valid_date(day.0, day.1, day.2),
{
    match six_months_later(today) {
        Some(until) => get_payment_projections_between(ledger, today, until.as_str()),
        None => Err(LedgerError::InvalidDay),
    }
}

} // verus!
