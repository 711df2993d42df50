//! The row-state reconciler: owns the ordered row sequence, the mode and
//! the selection, and folds persistence results into them.
//!
//! All mutation goes through the transition methods here; the renderer
//! only reads the state and writes text into staged rows' buffers. Every
//! received message is applied by `apply_operation`, whose meaning is the
//! one mathematical function `apply_operation_spec`.

use crate::model::Company;
use crate::model::CompanyV;
use crate::model::EditedCompany;
use crate::model::EditedCompanyV;
use crate::model::NewCompany;
use crate::model::NewCompanyV;
use crate::model::company_wf;
use crate::model::company_wf_check;
use crate::protocol::Operation;
use crate::protocol::OperationV;
use crate::protocol::StoreError;
use crate::protocol::operation_wf;
use crate::protocol::views_of_ids;
use crate::rows::EditRowV;
use crate::rows::EditedCompanyRow;
use crate::rows::NewCompanyRow;
use crate::rows::NewRowV;
use crate::rows::Row;
use crate::rows::RowV;
use crate::rows::new_row_default;
use crate::money::PARSE_LIMIT_CENTS;
use crate::rows::ValidationError;
use crate::text::amount_text;
use crate::text::format_amount;
use crate::text::lemma_amount_text_round_trip;
use crate::text::lemma_int_digits_text_digits;
use crate::total::TotalRow;
use crate::total::aggregate;
use crate::total::total_of;
use crate::total::views_of_companies;
use crate::validate::map_to_edited;
use crate::validate::map_to_edited_spec;
use crate::validate::map_to_new;
use crate::validate::map_to_new_spec;
use vstd::pervasive::VecAdditionalExecFns;
use vstd::prelude::*;

verus! {

broadcast use
    vstd::seq_lib::group_filter_ensures,
    Seq::lemma_filter_push,
    Seq::lemma_filter_contains_rev,
    Seq::filter_distributes_over_add,
;

/// The reconciler's global mode, gating which actions are enabled and
/// which row variants may appear.
#[derive(Clone, Copy, PartialEq, Eq, Structural, Debug)]
pub enum Mode {
    Normal,
    Add,
    Edit,
}

impl Mode {
    /// The mode's name, as the window title bar shows it.
    pub fn label(&self) -> (r: &'static str)
        ensures
            self is Normal ==> r@ == "Normal"@,
            self is Add ==> r@ == "Add"@,
            self is Edit ==> r@ == "Edit"@,
    {
        match self {
            Mode::Normal => "Normal",
            Mode::Add => "Add",
            Mode::Edit => "Edit",
        }
    }
}

/// The reconciler's state: the ordered display rows, the mode, the two
/// pending-work flags, and the selection of persisted rows by identifier.
pub struct State {
    pub rows: Vec<Row>,
    pub mode: Mode,
    pub need_to_fetch: bool,
    pub need_to_calculate_total: bool,
    pub selected_rows: Vec<i64>,
}

/// Mathematical image of the reconciler's state.
#[verifier::ext_equal]
pub struct StateV {
    pub rows: Seq<RowV>,
    pub mode: Mode,
    pub need_to_fetch: bool,
    pub need_to_calculate_total: bool,
    pub selected_rows: Seq<int>,
}

/// Views of a sequence of display rows.
pub open spec fn views_of_rows(rows: Seq<Row>) -> Seq<RowV> {
    rows.map_values(|r: Row| r@)
}

impl View for State {
    type V = StateV;

    open spec fn view(&self) -> StateV {
        StateV {
            rows: views_of_rows(self.rows@),
            mode: self.mode,
            need_to_fetch: self.need_to_fetch,
            need_to_calculate_total: self.need_to_calculate_total,
            selected_rows: views_of_ids(self.selected_rows@),
        }
    }
}

/// The rows the reconciler starts from: nothing yet, a fetch and a total
/// recomputation pending.
pub open spec fn initial_state() -> StateV {
    StateV {
        rows: Seq::empty(),
        mode: Mode::Normal,
        need_to_fetch: true,
        need_to_calculate_total: true,
        selected_rows: Seq::empty(),
    }
}

impl Default for State {
    fn default() -> (r: Self)
        ensures
            r@ == initial_state(),
    {
        let r = State {
            rows: Vec::new(),
            mode: Mode::Normal,
            need_to_fetch: true,
            need_to_calculate_total: true,
            selected_rows: Vec::new(),
        };
        proof {
            assert(r@ =~= initial_state());
        }
        r
    }
}

/// A row that survives a batched-add result: persisted rows only; staged
/// rows and the stale total are dropped.
pub open spec fn keep_on_add(r: RowV) -> bool {
    r is Constant
}

/// A row that survives cancelling Add mode: persisted rows and the total.
pub open spec fn keep_on_cancel(r: RowV) -> bool {
    r is Constant || r is Total
}

/// A row other than the aggregate total.
pub open spec fn keep_not_total(r: RowV) -> bool {
    !(r is Total)
}

/// A row that survives a delete result: everything but the persisted rows
/// whose identifier was deleted.
pub open spec fn keep_not_deleted(r: RowV, ids: Seq<int>) -> bool {
    match r {
        RowV::Constant(c) => !ids.contains(c.id),
        _ => true,
    }
}

/// The predicate keeping rows that a delete result retains.
pub open spec fn not_deleted_pred(ids: Seq<int>) -> spec_fn(RowV) -> bool {
    |r: RowV| keep_not_deleted(r, ids)
}

/// The predicate keeping selected identifiers that a fetched row set holds.
pub open spec fn selected_in_pred(cs: Seq<CompanyV>) -> spec_fn(int) -> bool {
    |id: int| company_ids(cs).contains(id)
}

/// The predicate keeping selected identifiers that were not deleted.
pub open spec fn not_deleted_id_pred(ids: Seq<int>) -> spec_fn(int) -> bool {
    |id: int| !ids.contains(id)
}

/// Persisted rows wrapping the given companies, in order.
pub open spec fn constant_rows_of(cs: Seq<CompanyV>) -> Seq<RowV> {
    cs.map_values(|c: CompanyV| RowV::Constant(c))
}

/// The identifiers of the given companies, in order.
pub open spec fn company_ids(cs: Seq<CompanyV>) -> Seq<int> {
    cs.map_values(|c: CompanyV| c.id)
}

/// The company under a persisted row.
pub open spec fn constant_company_of(r: RowV) -> Option<CompanyV> {
    match r {
        RowV::Constant(c) => Some(c),
        _ => None,
    }
}

/// `constant_company_of` as a value, so that every use names one function.
pub open spec fn constant_company_fn() -> spec_fn(RowV) -> Option<CompanyV> {
    |r: RowV| constant_company_of(r)
}

/// The companies of the persisted rows, in order.
pub open spec fn constants_of(rows: Seq<RowV>) -> Seq<CompanyV> {
    rows.filter_map(constant_company_fn())
}

/// Row-sequence invariant: the total row, when present, is last (hence
/// unique), and every persisted row is well-formed.
pub open spec fn rows_wf(rows: Seq<RowV>) -> bool {
    &&& forall|i: int|
        0 <= i < rows.len() ==> ((#[trigger] rows[i]) is Total ==> i == rows.len() - 1)
    &&& forall|i: int|
        0 <= i < rows.len() ==> ((#[trigger] rows[i]) matches RowV::Constant(c) ==> company_wf(c))
}

/// Selection invariant: no identifier is selected twice.
pub open spec fn selection_wf(sel: Seq<int>) -> bool {
    forall|i: int, j: int| 0 <= i < j < sel.len() ==> sel[i] != sel[j]
}

/// The reconciler's state invariant.
pub open spec fn state_wf(s: StateV) -> bool {
    rows_wf(s.rows) && selection_wf(s.selected_rows)
}

/// How one received message transforms the state:
/// - an add result drops all non-persisted rows (including the stale
///   total), appends the newly persisted rows and asks for a new total;
/// - a successful fetch replaces the whole row sequence, closes the
///   selection against identifiers no longer present and asks for a new
///   total; a failed fetch changes no rows;
/// - a delete result removes the deleted persisted rows, clears their
///   identifiers from the selection and asks for a new total;
/// - an edit acknowledgement schedules a re-fetch;
/// - a total result replaces the total row, keeping it last.
pub open spec fn apply_operation_spec(s: StateV, op: OperationV) -> StateV {
    match op {
        OperationV::Add { new_companies } => StateV {
            rows: s.rows.filter(retain_pred(RetainKind::ConstantOnly)) + constant_rows_of(
                new_companies,
            ),
            mode: s.mode,
            need_to_fetch: s.need_to_fetch,
            need_to_calculate_total: true,
            selected_rows: s.selected_rows,
        },
        OperationV::Edit => StateV {
            rows: s.rows,
            mode: s.mode,
            need_to_fetch: true,
            need_to_calculate_total: s.need_to_calculate_total,
            selected_rows: s.selected_rows,
        },
        OperationV::FetchAll { all_companies: Ok(cs) } => StateV {
            rows: constant_rows_of(cs),
            mode: s.mode,
            need_to_fetch: s.need_to_fetch,
            need_to_calculate_total: true,
            selected_rows: s.selected_rows.filter(selected_in_pred(cs)),
        },
        OperationV::FetchAll { all_companies: Err(_) } => StateV {
            rows: s.rows,
            mode: s.mode,
            need_to_fetch: s.need_to_fetch,
            need_to_calculate_total: true,
            selected_rows: s.selected_rows,
        },
        OperationV::Delete { deleted_companies } => StateV {
            rows: s.rows.filter(not_deleted_pred(deleted_companies)),
            mode: s.mode,
            need_to_fetch: s.need_to_fetch,
            need_to_calculate_total: true,
            selected_rows: s.selected_rows.filter(not_deleted_id_pred(deleted_companies)),
        },
        OperationV::Total { total } => StateV {
            rows: s.rows.filter(retain_pred(RetainKind::NotTotal)).push(RowV::Total(total)),
            mode: s.mode,
            need_to_fetch: s.need_to_fetch,
            need_to_calculate_total: s.need_to_calculate_total,
            selected_rows: s.selected_rows,
        },
    }
}

/// Filtering keeps the row invariant.
pub proof fn lemma_rows_wf_filter(rows: Seq<RowV>, p: spec_fn(RowV) -> bool)
    requires
        rows_wf(rows),
    ensures
        rows_wf(rows.filter(p)),
    decreases rows.len(),
{
    if rows.len() == 0 {
        reveal_with_fuel(Seq::filter, 1);
    } else {
        let init = rows.drop_last();
        let last = rows.last();
        assert(forall|i: int| 0 <= i < init.len() ==> init[i] == rows[i]);
        assert(rows_wf(init));
        lemma_rows_wf_filter(init, p);
        // No total stands anywhere in `init`, hence none in its filtering.
        assert(forall|i: int| 0 <= i < init.len() ==> !((#[trigger] init[i]) is Total));
        let f = init.filter(p);
        assert(forall|i: int| 0 <= i < f.len() ==> !((#[trigger] f[i]) is Total)) by {
            assert forall|i: int| 0 <= i < f.len() implies !((#[trigger] f[i]) is Total) by {
                assert(f.contains(f[i]));
                assert(init.contains(f[i]));
                let j = choose|j: int| 0 <= j < init.len() && init[j] == f[i];
                assert(!(init[j] is Total));
            }
        }
        reveal_with_fuel(Seq::filter, 1);
        assert(rows.filter(p) == if p(last) {
            f.push(last)
        } else {
            f
        });
        if p(last) {
            assert(forall|i: int|
                0 <= i < f.len() ==> #[trigger] f.push(last)[i] == f[i]);
            assert(f.push(last).last() == last);
        }
    }
}

/// Filtering keeps the selection free of duplicates.
pub proof fn lemma_selection_wf_filter(sel: Seq<int>, p: spec_fn(int) -> bool)
    requires
        selection_wf(sel),
    ensures
        selection_wf(sel.filter(p)),
    decreases sel.len(),
{
    if sel.len() == 0 {
        reveal_with_fuel(Seq::filter, 1);
    } else {
        let init = sel.drop_last();
        let last = sel.last();
        assert(forall|i: int| 0 <= i < init.len() ==> init[i] == sel[i]);
        assert(selection_wf(init));
        lemma_selection_wf_filter(init, p);
        let f = init.filter(p);
        reveal_with_fuel(Seq::filter, 1);
        assert(sel.filter(p) == if p(last) {
            f.push(last)
        } else {
            f
        });
        if p(last) {
            // The last identifier is new to the filtered prefix.
            assert(forall|i: int| 0 <= i < init.len() ==> init[i] != last);
            assert(forall|i: int| 0 <= i < f.len() ==> #[trigger] f[i] != last) by {
                assert forall|i: int| 0 <= i < f.len() implies #[trigger] f[i] != last by {
                    assert(f.contains(f[i]));
                    assert(init.contains(f[i]));
                }
            }
            assert(forall|i: int|
                0 <= i < f.len() ==> #[trigger] f.push(last)[i] == f[i]);
        }
    }
}

/// Which rows a retain pass keeps.
pub enum RetainKind {
    /// Persisted rows only: a batched-add result replaces everything else.
    ConstantOnly,
    /// Persisted rows and the total: cancelling Add drops staged rows.
    ConstantAndTotal,
    /// Everything but the total: a fresh total is about to be appended.
    NotTotal,
}

/// The predicate a retain pass applies.
pub open spec fn retain_pred(kind: RetainKind) -> spec_fn(RowV) -> bool {
    match kind {
        RetainKind::ConstantOnly => |r: RowV| keep_on_add(r),
        RetainKind::ConstantAndTotal => |r: RowV| keep_on_cancel(r),
        RetainKind::NotTotal => |r: RowV| keep_not_total(r),
    }
}

/// Keeps exactly the rows the given pass keeps, in order.
fn retain_rows(rows: &mut Vec<Row>, kind: RetainKind)
    ensures
        views_of_rows(final(rows)@) == views_of_rows(old(rows)@).filter(retain_pred(kind)),
{
    let ghost p = retain_pred(kind);
    let ghost all = views_of_rows(rows@);
    let mut out: Vec<Row> = Vec::new();
    let mut i: usize = 0;
    proof {
        reveal_with_fuel(Seq::filter, 1);
        assert(all.take(0) =~= Seq::<RowV>::empty());
        assert(views_of_rows(out@) =~= Seq::<RowV>::empty().filter(p));
    }
    while i < rows.len()
        invariant
            i <= rows@.len(),
            all == views_of_rows(rows@),
            p == retain_pred(kind),
            views_of_rows(out@) == all.take(i as int).filter(p),
        decreases rows@.len() - i,
    {
        let keep = match (&rows[i], &kind) {
            (Row::Constant(_), _) => true,
            (Row::Total(_), RetainKind::ConstantAndTotal) => true,
            (Row::Total(_), _) => false,
            (_, RetainKind::NotTotal) => true,
            _ => false,
        };
        proof {
            assert(all[i as int] == rows@[i as int]@);
            assert(keep == p(all[i as int]));
            assert(all.take(i + 1) =~= all.take(i as int).push(all[i as int]));
        }
        if keep {
            let r = rows[i].clone();
            out.push(r);
            proof {
                assert(views_of_rows(out@) =~= all.take(i as int).filter(p).push(all[i as int]));
            }
        } else {
            proof {
                assert(views_of_rows(out@) =~= all.take(i as int).filter(p));
            }
        }
        i = i + 1;
    }
    proof {
        assert(all.take(rows@.len() as int) =~= all);
    }
    *rows = out;
}

/// Whether the identifier stands in the list.
fn id_in_list(ids: &Vec<i64>, id: i64) -> (r: bool)
    ensures
        r == views_of_ids(ids@).contains(id as int),
{
    let mut i: usize = 0;
    while i < ids.len()
        invariant
            i <= ids@.len(),
            forall|k: int| 0 <= k < i ==> views_of_ids(ids@)[k] != id as int,
        decreases ids@.len() - i,
    {
        if ids[i] == id {
            proof {
                assert(views_of_ids(ids@)[i as int] == id as int);
            }
            return true;
        }
        i = i + 1;
    }
    proof {
        if views_of_ids(ids@).contains(id as int) {
            let k = choose|k: int|
                0 <= k < views_of_ids(ids@).len() && views_of_ids(ids@)[k] == id as int;
            assert(false);
        }
    }
    false
}

/// Whether some company in the list carries the identifier.
fn company_id_in_list(companies: &Vec<Company>, id: i64) -> (r: bool)
    ensures
        r == company_ids(views_of_companies(companies@)).contains(id as int),
{
    let ghost cids = company_ids(views_of_companies(companies@));
    let mut i: usize = 0;
    while i < companies.len()
        invariant
            i <= companies@.len(),
            cids == company_ids(views_of_companies(companies@)),
            forall|k: int| 0 <= k < i ==> cids[k] != id as int,
        decreases companies@.len() - i,
    {
        if companies[i].id == id {
            proof {
                assert(cids[i as int] == id as int);
            }
            return true;
        }
        i = i + 1;
    }
    proof {
        if cids.contains(id as int) {
            let k = choose|k: int| 0 <= k < cids.len() && cids[k] == id as int;
            assert(false);
        }
    }
    false
}

/// Removes the persisted rows whose identifier was deleted.
fn retain_not_deleted_rows(rows: &mut Vec<Row>, ids: &Vec<i64>)
    ensures
        views_of_rows(final(rows)@) == views_of_rows(old(rows)@).filter(
            not_deleted_pred(views_of_ids(ids@)),
        ),
{
    let ghost p = not_deleted_pred(views_of_ids(ids@));
    let ghost all = views_of_rows(rows@);
    let mut out: Vec<Row> = Vec::new();
    let mut i: usize = 0;
    proof {
        reveal_with_fuel(Seq::filter, 1);
        assert(all.take(0) =~= Seq::<RowV>::empty());
        assert(views_of_rows(out@) =~= Seq::<RowV>::empty().filter(p));
    }
    while i < rows.len()
        invariant
            i <= rows@.len(),
            all == views_of_rows(rows@),
            p == not_deleted_pred(views_of_ids(ids@)),
            views_of_rows(out@) == all.take(i as int).filter(p),
        decreases rows@.len() - i,
    {
        let keep = match &rows[i] {
            Row::Constant(c) => !id_in_list(ids, c.id),
            _ => true,
        };
        proof {
            assert(all[i as int] == rows@[i as int]@);
            assert(keep == p(all[i as int]));
            assert(all.take(i + 1) =~= all.take(i as int).push(all[i as int]));
        }
        if keep {
            let r = rows[i].clone();
            out.push(r);
            proof {
                assert(views_of_rows(out@) =~= all.take(i as int).filter(p).push(all[i as int]));
            }
        } else {
            proof {
                assert(views_of_rows(out@) =~= all.take(i as int).filter(p));
            }
        }
        i = i + 1;
    }
    proof {
        assert(all.take(rows@.len() as int) =~= all);
    }
    *rows = out;
}

/// Keeps only the selected identifiers that a fetched row set still holds.
fn retain_selection_in_companies(sel: &mut Vec<i64>, companies: &Vec<Company>)
    ensures
        views_of_ids(final(sel)@) == views_of_ids(old(sel)@).filter(
            selected_in_pred(views_of_companies(companies@)),
        ),
{
    let ghost p = selected_in_pred(views_of_companies(companies@));
    let ghost all = views_of_ids(sel@);
    let mut out: Vec<i64> = Vec::new();
    let mut i: usize = 0;
    proof {
        reveal_with_fuel(Seq::filter, 1);
        assert(all.take(0) =~= Seq::<int>::empty());
        assert(views_of_ids(out@) =~= Seq::<int>::empty().filter(p));
    }
    while i < sel.len()
        invariant
            i <= sel@.len(),
            all == views_of_ids(sel@),
            p == selected_in_pred(views_of_companies(companies@)),
            views_of_ids(out@) == all.take(i as int).filter(p),
        decreases sel@.len() - i,
    {
        let keep = company_id_in_list(companies, sel[i]);
        proof {
            assert(all[i as int] == sel@[i as int] as int);
            assert(keep == p(all[i as int]));
            assert(all.take(i + 1) =~= all.take(i as int).push(all[i as int]));
        }
        if keep {
            out.push(sel[i]);
            proof {
                assert(views_of_ids(out@) =~= all.take(i as int).filter(p).push(all[i as int]));
            }
        } else {
            proof {
                assert(views_of_ids(out@) =~= all.take(i as int).filter(p));
            }
        }
        i = i + 1;
    }
    proof {
        assert(all.take(sel@.len() as int) =~= all);
    }
    *sel = out;
}

/// Clears the deleted identifiers from the selection.
fn retain_selection_not_deleted(sel: &mut Vec<i64>, ids: &Vec<i64>)
    ensures
        views_of_ids(final(sel)@) == views_of_ids(old(sel)@).filter(
            not_deleted_id_pred(views_of_ids(ids@)),
        ),
{
    let ghost p = not_deleted_id_pred(views_of_ids(ids@));
    let ghost all = views_of_ids(sel@);
    let mut out: Vec<i64> = Vec::new();
    let mut i: usize = 0;
    proof {
        reveal_with_fuel(Seq::filter, 1);
        assert(all.take(0) =~= Seq::<int>::empty());
        assert(views_of_ids(out@) =~= Seq::<int>::empty().filter(p));
    }
    while i < sel.len()
        invariant
            i <= sel@.len(),
            all == views_of_ids(sel@),
            p == not_deleted_id_pred(views_of_ids(ids@)),
            views_of_ids(out@) == all.take(i as int).filter(p),
        decreases sel@.len() - i,
    {
        let keep = !id_in_list(ids, sel[i]);
        proof {
            assert(all[i as int] == sel@[i as int] as int);
            assert(keep == p(all[i as int]));
            assert(all.take(i + 1) =~= all.take(i as int).push(all[i as int]));
        }
        if keep {
            out.push(sel[i]);
            proof {
                assert(views_of_ids(out@) =~= all.take(i as int).filter(p).push(all[i as int]));
            }
        } else {
            proof {
                assert(views_of_ids(out@) =~= all.take(i as int).filter(p));
            }
        }
        i = i + 1;
    }
    proof {
        assert(all.take(sel@.len() as int) =~= all);
    }
    *sel = out;
}

impl State {
    /// Folds one received result message into the state, returning the
    /// store failure to surface when the message carries one. The new
    /// state is exactly `apply_operation_spec` of the old one.
    pub fn apply_operation(&mut self, op: Operation) -> (err: Option<StoreError>)
        requires
            state_wf(old(self)@),
            operation_wf(op@),
        ensures
            final(self)@ == apply_operation_spec(old(self)@, op@),
            state_wf(final(self)@),
            err is Some <==> (op@ matches OperationV::FetchAll { all_companies: Err(_) }),
            err matches Some(e) ==> (op@ matches OperationV::FetchAll {
                all_companies: Err(m),
            } && e@ == m),
    {
        let ghost s0 = self@;
        let ghost opv = op@;
        match &op {
            Operation::Add { new_companies } => {
                let ghost cs = views_of_companies(new_companies@);
                retain_rows(&mut self.rows, RetainKind::ConstantOnly);
                let ghost kept = s0.rows.filter(retain_pred(RetainKind::ConstantOnly));
                proof {
                    assert(constant_rows_of(cs.take(0)) =~= Seq::<RowV>::empty());
                    assert(kept + constant_rows_of(cs.take(0)) =~= kept);
                }
                let mut i: usize = 0;
                while i < new_companies.len()
                    invariant
                        i <= new_companies@.len(),
                        cs == views_of_companies(new_companies@),
                        views_of_rows(self.rows@) == kept + constant_rows_of(cs.take(i as int)),
                        self.mode == s0.mode,
                        self.need_to_fetch == s0.need_to_fetch,
                        self.need_to_calculate_total == s0.need_to_calculate_total,
                        views_of_ids(self.selected_rows@) == s0.selected_rows,
                    decreases new_companies@.len() - i,
                {
                    let c = new_companies[i].clone();
                    proof {
                        assert(c@ == cs[i as int]);
                    }
                    let ghost before = views_of_rows(self.rows@);
                    self.rows.push(Row::Constant(c));
                    proof {
                        assert(views_of_rows(self.rows@) =~= before.push(
                            RowV::Constant(cs[i as int]),
                        ));
                        assert(constant_rows_of(cs.take(i + 1)) =~= constant_rows_of(
                            cs.take(i as int),
                        ).push(RowV::Constant(cs[i as int])));
                        assert(views_of_rows(self.rows@) =~= kept + constant_rows_of(
                            cs.take(i + 1),
                        ));
                    }
                    i = i + 1;
                }
                self.need_to_calculate_total = true;
                proof {
                    assert(cs.take(cs.len() as int) =~= cs);
                    assert(self@ =~= apply_operation_spec(s0, opv));
                    lemma_rows_wf_filter(s0.rows, retain_pred(RetainKind::ConstantOnly));
                    assert(rows_wf(self@.rows)) by {
                        assert(forall|k: int|
                            0 <= k < kept.len() ==> retain_pred(RetainKind::ConstantOnly)(
                                #[trigger] kept[k],
                            ));
                        assert(forall|k: int|
                            0 <= k < self@.rows.len() ==> !((#[trigger] self@.rows[k]) is Total));
                        assert(forall|k: int|
                            0 <= k < self@.rows.len() ==> ((#[trigger] self@.rows[k]) matches
                                RowV::Constant(c) ==> company_wf(c))) by {
                            assert(forall|k: int|
                                0 <= k < cs.len() ==> company_wf(#[trigger] cs[k]));
                            assert(forall|k: int|
                                kept.len() <= k < self@.rows.len() ==> #[trigger] self@.rows[k]
                                    == RowV::Constant(cs[k - kept.len()]));
                        }
                    }
                }
                None
            },
            Operation::Edit => {
                self.need_to_fetch = true;
                proof {
                    assert(self@ =~= apply_operation_spec(s0, opv));
                }
                None
            },
            Operation::FetchAll { all_companies } => {
                match all_companies {
                    Ok(companies) => {
                        let ghost cs = views_of_companies(companies@);
                        let mut new_rows: Vec<Row> = Vec::new();
                        proof {
                            assert(constant_rows_of(cs.take(0)) =~= Seq::<RowV>::empty());
                            assert(views_of_rows(new_rows@) =~= constant_rows_of(cs.take(0)));
                        }
                        let mut i: usize = 0;
                        while i < companies.len()
                            invariant
                                i <= companies@.len(),
                                cs == views_of_companies(companies@),
                                views_of_rows(new_rows@) == constant_rows_of(cs.take(i as int)),
                            decreases companies@.len() - i,
                        {
                            let c = companies[i].clone();
                            proof {
                                assert(c@ == cs[i as int]);
                            }
                            let ghost before = views_of_rows(new_rows@);
                            new_rows.push(Row::Constant(c));
                            proof {
                                assert(views_of_rows(new_rows@) =~= before.push(
                                    RowV::Constant(cs[i as int]),
                                ));
                                assert(constant_rows_of(cs.take(i + 1)) =~= constant_rows_of(
                                    cs.take(i as int),
                                ).push(RowV::Constant(cs[i as int])));
                            }
                            i = i + 1;
                        }
                        self.rows = new_rows;
                        retain_selection_in_companies(&mut self.selected_rows, companies);
                        self.need_to_calculate_total = true;
                        proof {
                            assert(cs.take(cs.len() as int) =~= cs);
                            assert(self@ =~= apply_operation_spec(s0, opv));
                            lemma_selection_wf_filter(s0.selected_rows, selected_in_pred(cs));
                            assert(rows_wf(self@.rows)) by {
                                assert(forall|k: int|
                                    0 <= k < cs.len() ==> company_wf(#[trigger] cs[k]));
                                assert(forall|k: int|
                                    0 <= k < self@.rows.len() ==> #[trigger] self@.rows[k]
                                        == RowV::Constant(cs[k]));
                            }
                        }
                        None
                    },
                    Err(e) => {
                        self.need_to_calculate_total = true;
                        proof {
                            assert(self@ =~= apply_operation_spec(s0, opv));
                        }
                        Some(e.clone())
                    },
                }
            },
            Operation::Delete { deleted_companies } => {
                retain_not_deleted_rows(&mut self.rows, deleted_companies);
                retain_selection_not_deleted(&mut self.selected_rows, deleted_companies);
                self.need_to_calculate_total = true;
                proof {
                    let ids = views_of_ids(deleted_companies@);
                    assert(self@ =~= apply_operation_spec(s0, opv));
                    lemma_rows_wf_filter(s0.rows, not_deleted_pred(ids));
                    lemma_selection_wf_filter(s0.selected_rows, not_deleted_id_pred(ids));
                }
                None
            },
            Operation::Total { total } => {
                retain_rows(&mut self.rows, RetainKind::NotTotal);
                self.rows.push(Row::Total(*total));
                proof {
                    let kept = s0.rows.filter(retain_pred(RetainKind::NotTotal));
                    assert(self@ =~= apply_operation_spec(s0, opv));
                    lemma_rows_wf_filter(s0.rows, retain_pred(RetainKind::NotTotal));
                    assert(rows_wf(self@.rows)) by {
                        assert(forall|k: int|
                            0 <= k < kept.len() ==> retain_pred(RetainKind::NotTotal)(
                                #[trigger] kept[k],
                            ));
                        assert(forall|k: int|
                            0 <= k < self@.rows.len() - 1 ==> #[trigger] self@.rows[k] == kept[k]);
                    }
                }
                None
            },
        }
    }
}

/// Unfolding step for `filter_map` over a prefix.
pub proof fn lemma_filter_map_step<A, B>(s: Seq<A>, f: spec_fn(A) -> Option<B>, i: int)
    requires
        0 <= i < s.len(),
    ensures
        s.take(i + 1).filter_map(f) == match f(s[i]) {
            Some(b) => s.take(i).filter_map(f).push(b),
            None => s.take(i).filter_map(f),
        },
{
    assert(s.take(i + 1).drop_last() =~= s.take(i));
    assert(s.take(i + 1).last() == s[i]);
    match f(s[i]) {
        Some(b) => {
            assert(s.take(i).filter_map(f) + seq![b] =~= s.take(i).filter_map(f).push(b));
        },
        None => {},
    }
}

/// Filtering by a predicate every element satisfies changes nothing.
pub proof fn lemma_filter_all_true<A>(s: Seq<A>, p: spec_fn(A) -> bool)
    requires
        forall|i: int| 0 <= i < s.len() ==> p(#[trigger] s[i]),
    ensures
        s.filter(p) == s,
    decreases s.len(),
{
    reveal_with_fuel(Seq::filter, 1);
    if s.len() > 0 {
        let init = s.drop_last();
        assert(forall|i: int| 0 <= i < init.len() ==> init[i] == s[i]);
        lemma_filter_all_true(init, p);
        assert(s.filter(p) =~= s) by {
            assert(s.filter(p) == init.filter(p).push(s.last()));
        }
    } else {
        assert(s.filter(p) =~= s);
    }
}

/// The blank staged row that entering Add mode appends, placed before the
/// total row when one is shown.
pub open spec fn add_row_spec(s: StateV) -> StateV {
    StateV {
        rows: if s.rows.len() > 0 && s.rows.last() is Total {
            s.rows.insert(s.rows.len() - 1, RowV::New(new_row_default()))
        } else {
            s.rows.push(RowV::New(new_row_default()))
        },
        mode: Mode::Add,
        need_to_fetch: s.need_to_fetch,
        need_to_calculate_total: s.need_to_calculate_total,
        selected_rows: s.selected_rows,
    }
}

/// The predicate keeping every identifier but the given one.
pub open spec fn not_id_pred(id: int) -> spec_fn(int) -> bool {
    |x: int| x != id
}

/// Toggling a selection: a selected identifier leaves, an unselected one
/// joins at the end.
pub open spec fn toggle_selection_spec(s: StateV, id: int) -> StateV {
    StateV {
        rows: s.rows,
        mode: s.mode,
        need_to_fetch: s.need_to_fetch,
        need_to_calculate_total: s.need_to_calculate_total,
        selected_rows: if s.selected_rows.contains(id) {
            s.selected_rows.filter(not_id_pred(id))
        } else {
            s.selected_rows.push(id)
        },
    }
}

/// Leaving a staging mode without saving: cancelled Add drops the staged
/// rows and keeps persisted rows and the total; cancelled Edit asks for a
/// fresh fetch instead of reconstructing from stale text.
pub open spec fn cancel_spec(s: StateV) -> StateV {
    match s.mode {
        Mode::Add => StateV {
            rows: s.rows.filter(retain_pred(RetainKind::ConstantAndTotal)),
            mode: Mode::Normal,
            need_to_fetch: s.need_to_fetch,
            need_to_calculate_total: s.need_to_calculate_total,
            selected_rows: s.selected_rows,
        },
        Mode::Edit => StateV {
            rows: s.rows,
            mode: Mode::Normal,
            need_to_fetch: true,
            need_to_calculate_total: s.need_to_calculate_total,
            selected_rows: s.selected_rows,
        },
        Mode::Normal => s,
    }
}

/// The identifier of a persisted row under selection.
pub open spec fn selected_constant_id_of(r: RowV, sel: Seq<int>) -> Option<int> {
    match r {
        RowV::Constant(c) => if sel.contains(c.id) {
            Some(c.id)
        } else {
            None
        },
        _ => None,
    }
}

/// `selected_constant_id_of` as a value, naming one function per selection.
pub open spec fn selected_constant_id_fn(sel: Seq<int>) -> spec_fn(RowV) -> Option<int> {
    |r: RowV| selected_constant_id_of(r, sel)
}

/// The identifiers of the selected persisted rows, in row order.
pub open spec fn selected_constant_ids(rows: Seq<RowV>, sel: Seq<int>) -> Seq<int> {
    rows.filter_map(selected_constant_id_fn(sel))
}

impl State {
    /// Enters Add mode and appends one blank staged row, before the total
    /// row when one is shown.
    pub fn add_row(&mut self)
        requires
            state_wf(old(self)@),
        ensures
            final(self)@ == add_row_spec(old(self)@),
            state_wf(final(self)@),
    {
        let ghost s0 = self@;
        self.mode = Mode::Add;
        let n = self.rows.len();
        let total_last = if n > 0 {
            match &self.rows[n - 1] {
                Row::Total(_) => true,
                _ => false,
            }
        } else {
            false
        };
        proof {
            if n > 0 {
                assert(s0.rows.last() == s0.rows[n - 1]);
            }
        }
        if total_last {
            self.rows.insert(n - 1, Row::New(NewCompanyRow::default()));
            proof {
                assert(views_of_rows(self.rows@) =~= s0.rows.insert(
                    s0.rows.len() - 1,
                    RowV::New(new_row_default()),
                ));
            }
        } else {
            self.rows.push(Row::New(NewCompanyRow::default()));
            proof {
                assert(views_of_rows(self.rows@) =~= s0.rows.push(RowV::New(new_row_default())));
            }
        }
        proof {
            assert(self@ =~= add_row_spec(s0));
            let rows = add_row_spec(s0).rows;
            assert(rows_wf(rows)) by {
                if s0.rows.len() > 0 && s0.rows.last() is Total {
                    assert(forall|k: int|
                        0 <= k < s0.rows.len() - 1 ==> rows[k] == #[trigger] s0.rows[k]);
                    assert(rows[s0.rows.len() - 1] == RowV::New(new_row_default()));
                    assert(rows[s0.rows.len() as int] == s0.rows[s0.rows.len() - 1]);
                } else {
                    assert(forall|k: int|
                        0 <= k < s0.rows.len() ==> rows[k] == #[trigger] s0.rows[k]);
                }
            }
        }
    }

    /// Toggles whether the persisted row with the identifier is selected.
    pub fn toggle_selection(&mut self, id: i64)
        requires
            state_wf(old(self)@),
        ensures
            final(self)@ == toggle_selection_spec(old(self)@, id as int),
            state_wf(final(self)@),
    {
        let ghost s0 = self@;
        if id_in_list(&self.selected_rows, id) {
            let ghost p = not_id_pred(id as int);
            let ghost all = views_of_ids(self.selected_rows@);
            let mut out: Vec<i64> = Vec::new();
            let mut i: usize = 0;
            proof {
                reveal_with_fuel(Seq::filter, 1);
                assert(all.take(0) =~= Seq::<int>::empty());
                assert(views_of_ids(out@) =~= Seq::<int>::empty().filter(p));
            }
            while i < self.selected_rows.len()
                invariant
                    i <= self.selected_rows@.len(),
                    all == views_of_ids(self.selected_rows@),
                    p == not_id_pred(id as int),
                    views_of_ids(out@) == all.take(i as int).filter(p),
                decreases self.selected_rows@.len() - i,
            {
                let keep = self.selected_rows[i] != id;
                proof {
                    assert(all[i as int] == self.selected_rows@[i as int] as int);
                    assert(keep == p(all[i as int]));
                    assert(all.take(i + 1) =~= all.take(i as int).push(all[i as int]));
                }
                if keep {
                    out.push(self.selected_rows[i]);
                    proof {
                        assert(views_of_ids(out@) =~= all.take(i as int).filter(p).push(
                            all[i as int],
                        ));
                    }
                } else {
                    proof {
                        assert(views_of_ids(out@) =~= all.take(i as int).filter(p));
                    }
                }
                i = i + 1;
            }
            proof {
                assert(all.take(self.selected_rows@.len() as int) =~= all);
            }
            self.selected_rows = out;
            proof {
                assert(self@ =~= toggle_selection_spec(s0, id as int));
                lemma_selection_wf_filter(s0.selected_rows, p);
            }
        } else {
            self.selected_rows.push(id);
            proof {
                assert(views_of_ids(self.selected_rows@) =~= s0.selected_rows.push(id as int));
                assert(self@ =~= toggle_selection_spec(s0, id as int));
                let sel = toggle_selection_spec(s0, id as int).selected_rows;
                assert(selection_wf(sel)) by {
                    assert(forall|k: int|
                        0 <= k < s0.selected_rows.len() ==> sel[k] == #[trigger] s0
                            .selected_rows[k]);
                    assert(forall|k: int|
                        0 <= k < s0.selected_rows.len() ==> #[trigger] s0.selected_rows[k] != id);
                }
            }
        }
    }

    /// Leaves a staging mode without saving.
    pub fn cancel(&mut self)
        requires
            state_wf(old(self)@),
        ensures
            final(self)@ == cancel_spec(old(self)@),
            state_wf(final(self)@),
    {
        let ghost s0 = self@;
        match self.mode {
            Mode::Add => {
                retain_rows(&mut self.rows, RetainKind::ConstantAndTotal);
                self.mode = Mode::Normal;
                proof {
                    assert(self@ =~= cancel_spec(s0));
                    lemma_rows_wf_filter(s0.rows, retain_pred(RetainKind::ConstantAndTotal));
                }
            },
            Mode::Edit => {
                self.need_to_fetch = true;
                self.mode = Mode::Normal;
                proof {
                    assert(self@ =~= cancel_spec(s0));
                }
            },
            Mode::Normal => {
                proof {
                    assert(self@ =~= cancel_spec(s0));
                }
            },
        }
    }

    /// The identifiers of the selected persisted rows, in row order: the
    /// batch a delete request carries.
    pub fn delete_selected(&self) -> (ids: Vec<i64>)
        ensures
            views_of_ids(ids@) == selected_constant_ids(self@.rows, self@.selected_rows),
    {
        let ghost rows = self@.rows;
        let ghost sel = self@.selected_rows;
        let ghost f = selected_constant_id_fn(sel);
        let mut out: Vec<i64> = Vec::new();
        let mut i: usize = 0;
        proof {
            assert(rows.take(0) =~= Seq::<RowV>::empty());
            assert(views_of_ids(out@) =~= rows.take(0).filter_map(f));
        }
        while i < self.rows.len()
            invariant
                i <= self.rows@.len(),
                rows == self@.rows,
                sel == self@.selected_rows,
                f == selected_constant_id_fn(sel),
                views_of_ids(out@) == rows.take(i as int).filter_map(f),
            decreases self.rows@.len() - i,
        {
            proof {
                lemma_filter_map_step(rows, f, i as int);
                assert(rows[i as int] == self.rows@[i as int]@);
            }
            match &self.rows[i] {
                Row::Constant(c) => {
                    if id_in_list(&self.selected_rows, c.id) {
                        out.push(c.id);
                        proof {
                            assert(f(rows[i as int]) == Some(c.id as int));
                            assert(views_of_ids(out@) =~= rows.take(i as int).filter_map(f).push(
                                c.id as int,
                            ));
                        }
                    } else {
                        proof {
                            assert(f(rows[i as int]) is None);
                        }
                    }
                },
                _ => {
                    proof {
                        assert(f(rows[i as int]) is None);
                    }
                },
            }
            i = i + 1;
        }
        proof {
            assert(rows.take(rows.len() as int) =~= rows);
        }
        out
    }

    /// Computes the aggregate total over the persisted rows shown.
    pub fn calculate_total(&self) -> (t: TotalRow)
        requires
            state_wf(self@),
        ensures
            t@ == total_of(constants_of(self@.rows)),
    {
        let ghost rows = self@.rows;
        let ghost f = constant_company_fn();
        let mut companies: Vec<Company> = Vec::new();
        let mut i: usize = 0;
        proof {
            assert(rows.take(0) =~= Seq::<RowV>::empty());
            assert(views_of_companies(companies@) =~= rows.take(0).filter_map(f));
        }
        while i < self.rows.len()
            invariant
                i <= self.rows@.len(),
                rows == self@.rows,
                state_wf(self@),
                f == constant_company_fn(),
                views_of_companies(companies@) == rows.take(i as int).filter_map(f),
            decreases self.rows@.len() - i,
        {
            proof {
                lemma_filter_map_step(rows, f, i as int);
                assert(rows[i as int] == self.rows@[i as int]@);
            }
            match &self.rows[i] {
                Row::Constant(c) => {
                    let copy = c.clone();
                    companies.push(copy);
                    proof {
                        assert(f(rows[i as int]) == Some(copy@));
                        assert(views_of_companies(companies@) =~= rows.take(
                            i as int,
                        ).filter_map(f).push(copy@));
                    }
                },
                _ => {
                    proof {
                        assert(f(rows[i as int]) is None);
                    }
                },
            }
            i = i + 1;
        }
        proof {
            assert(rows.take(rows.len() as int) =~= rows);
            assert(forall|k: int|
                0 <= k < views_of_companies(companies@).len() ==> company_wf(
                    #[trigger] views_of_companies(companies@)[k],
                )) by {
                assert forall|k: int|
                    0 <= k < views_of_companies(companies@).len() implies company_wf(
                    views_of_companies(companies@)[k],
                ) by {
                    let cs = constants_of(rows);
                    assert(cs.contains(cs[k]));
                    Seq::lemma_filter_map_contains(rows, f, cs[k]);
                    let r = choose|r: RowV| rows.contains(r) && f(r) == Some(cs[k]);
                    let j = choose|j: int| 0 <= j < rows.len() && rows[j] == r;
                    assert(company_wf(cs[k]));
                }
            }
            assert(forall|k: int|
                0 <= k < companies@.len() ==> company_wf(#[trigger] companies@[k]@)) by {
                assert(forall|k: int|
                    0 <= k < companies@.len() ==> #[trigger] companies@[k]@ == views_of_companies(
                        companies@,
                    )[k]);
            }
        }
        aggregate(&companies)
    }
}

/// The staged-edit row seeded from a persisted record: the signed opening
/// remainder is decomposed back into the two sign-side texts, the inverse
/// of the validator's rule.
pub open spec fn seeded_edit_row(c: CompanyV) -> EditRowV {
    EditRowV {
        id: c.id,
        name: c.name,
        pos: if c.remainder_begin_month >= 0 {
            amount_text(c.remainder_begin_month)
        } else {
            Seq::empty()
        },
        neg: if c.remainder_begin_month >= 0 {
            Seq::empty()
        } else {
            amount_text(-c.remainder_begin_month)
        },
        debit: amount_text(c.debit_turnover),
        credit: amount_text(c.credit_turnover),
        error: None,
    }
}

/// A selected persisted row becomes a staged edit seeded from its values;
/// every other row is left alone.
pub open spec fn edit_seed_row(r: RowV, sel: Seq<int>) -> RowV {
    match r {
        RowV::Constant(c) => if sel.contains(c.id) {
            RowV::BeingEdited(seeded_edit_row(c))
        } else {
            r
        },
        _ => r,
    }
}

/// `edit_seed_row` as a value, naming one function per selection.
pub open spec fn edit_seed_fn(sel: Seq<int>) -> spec_fn(RowV) -> RowV {
    |r: RowV| edit_seed_row(r, sel)
}

/// Entering Edit mode: each selected persisted row is replaced in place.
pub open spec fn edit_selected_spec(s: StateV) -> StateV {
    StateV {
        rows: s.rows.map_values(edit_seed_fn(s.selected_rows)),
        mode: Mode::Edit,
        need_to_fetch: s.need_to_fetch,
        need_to_calculate_total: s.need_to_calculate_total,
        selected_rows: s.selected_rows,
    }
}

/// The validated record of a staged addition, when validation passes.
pub open spec fn new_row_outcome(r: RowV) -> Option<NewCompanyV> {
    match r {
        RowV::New(nr) => match map_to_new_spec(nr) {
            Ok(c) => Some(c),
            Err(_) => None,
        },
        _ => None,
    }
}

/// `new_row_outcome` as a value, so that every use names one function.
pub open spec fn new_row_outcome_fn() -> spec_fn(RowV) -> Option<NewCompanyV> {
    |r: RowV| new_row_outcome(r)
}

/// The staged additions that pass validation, in row order.
pub open spec fn validated_new_of(rows: Seq<RowV>) -> Seq<NewCompanyV> {
    rows.filter_map(new_row_outcome_fn())
}

/// Views of a batch of validated additions.
pub open spec fn views_of_new_companies(cs: Seq<NewCompany>) -> Seq<NewCompanyV> {
    cs.map_values(|c: NewCompany| c@)
}

/// A staged addition is re-flagged with its current validation outcome;
/// every other row is left alone.
pub open spec fn flag_new_row(r: RowV) -> RowV {
    match r {
        RowV::New(nr) => RowV::New(
            NewRowV {
                name: nr.name,
                pos: nr.pos,
                neg: nr.neg,
                debit: nr.debit,
                credit: nr.credit,
                error: match map_to_new_spec(nr) {
                    Ok(_) => None,
                    Err(e) => Some(e),
                },
            },
        ),
        _ => r,
    }
}

/// `flag_new_row` as a value, so that every use names one function.
pub open spec fn flag_new_fn() -> spec_fn(RowV) -> RowV {
    |r: RowV| flag_new_row(r)
}

/// A staged addition that fails validation.
pub open spec fn is_invalid_new(r: RowV) -> bool {
    r matches RowV::New(nr) && map_to_new_spec(nr) is Err
}

/// Some staged addition fails validation.
pub open spec fn any_invalid_new(rows: Seq<RowV>) -> bool {
    exists|i: int| 0 <= i < rows.len() && is_invalid_new(#[trigger] rows[i])
}

/// Saving in Add mode: every staged addition is re-flagged with its
/// validation outcome; the mode returns to Normal only when every staged
/// addition passed, so that flagged rows stay visible and editable.
pub open spec fn save_new_spec(s: StateV) -> StateV {
    StateV {
        rows: s.rows.map_values(flag_new_fn()),
        mode: if any_invalid_new(s.rows) {
            s.mode
        } else {
            Mode::Normal
        },
        need_to_fetch: s.need_to_fetch,
        need_to_calculate_total: s.need_to_calculate_total,
        selected_rows: s.selected_rows,
    }
}

/// The validated record of a staged edit, when validation passes.
pub open spec fn edited_row_outcome(r: RowV) -> Option<EditedCompanyV> {
    match r {
        RowV::BeingEdited(er) => match map_to_edited_spec(er) {
            Ok(c) => Some(c),
            Err(_) => None,
        },
        _ => None,
    }
}

/// `edited_row_outcome` as a value, so that every use names one function.
pub open spec fn edited_row_outcome_fn() -> spec_fn(RowV) -> Option<EditedCompanyV> {
    |r: RowV| edited_row_outcome(r)
}

/// The staged edits that pass validation, in row order.
pub open spec fn validated_edited_of(rows: Seq<RowV>) -> Seq<EditedCompanyV> {
    rows.filter_map(edited_row_outcome_fn())
}

/// Views of a batch of validated edits.
pub open spec fn views_of_edited_companies(cs: Seq<EditedCompany>) -> Seq<EditedCompanyV> {
    cs.map_values(|c: EditedCompany| c@)
}

/// A staged edit is re-flagged with its current validation outcome; every
/// other row is left alone.
pub open spec fn flag_edited_row(r: RowV) -> RowV {
    match r {
        RowV::BeingEdited(er) => RowV::BeingEdited(
            EditRowV {
                id: er.id,
                name: er.name,
                pos: er.pos,
                neg: er.neg,
                debit: er.debit,
                credit: er.credit,
                error: match map_to_edited_spec(er) {
                    Ok(_) => None,
                    Err(e) => Some(e),
                },
            },
        ),
        _ => r,
    }
}

/// `flag_edited_row` as a value, so that every use names one function.
pub open spec fn flag_edited_fn() -> spec_fn(RowV) -> RowV {
    |r: RowV| flag_edited_row(r)
}

/// A staged edit that fails validation.
pub open spec fn is_invalid_edited(r: RowV) -> bool {
    r matches RowV::BeingEdited(er) && map_to_edited_spec(er) is Err
}

/// Some staged edit fails validation.
pub open spec fn any_invalid_edited(rows: Seq<RowV>) -> bool {
    exists|i: int| 0 <= i < rows.len() && is_invalid_edited(#[trigger] rows[i])
}

/// Saving in Edit mode, mirroring `save_new_spec`.
pub open spec fn save_edited_spec(s: StateV) -> StateV {
    StateV {
        rows: s.rows.map_values(flag_edited_fn()),
        mode: if any_invalid_edited(s.rows) {
            s.mode
        } else {
            Mode::Normal
        },
        need_to_fetch: s.need_to_fetch,
        need_to_calculate_total: s.need_to_calculate_total,
        selected_rows: s.selected_rows,
    }
}

impl State {
    /// Enters Edit mode: each selected persisted row is replaced in place
    /// by a staged edit seeded from its current values.
    pub fn edit_selected_rows(&mut self)
        requires
            state_wf(old(self)@),
        ensures
            final(self)@ == edit_selected_spec(old(self)@),
            state_wf(final(self)@),
    {
        let ghost s0 = self@;
        self.mode = Mode::Edit;
        let mut i: usize = 0;
        while i < self.rows.len()
            invariant
                i <= self.rows@.len(),
                self.rows@.len() == s0.rows.len(),
                state_wf(s0),
                forall|k: int|
                    0 <= k < i ==> views_of_rows(self.rows@)[k] == edit_seed_row(
                        #[trigger] s0.rows[k],
                        s0.selected_rows,
                    ),
                forall|k: int|
                    i <= k < s0.rows.len() ==> views_of_rows(self.rows@)[k] == #[trigger] s0
                        .rows[k],
                self.mode == Mode::Edit,
                self.need_to_fetch == s0.need_to_fetch,
                self.need_to_calculate_total == s0.need_to_calculate_total,
                views_of_ids(self.selected_rows@) == s0.selected_rows,
            decreases self.rows@.len() - i,
        {
            let mut replacement: Option<Row> = None;
            match &self.rows[i] {
                Row::Constant(c) => {
                    if id_in_list(&self.selected_rows, c.id) {
                        proof {
                            assert(s0.rows[i as int] == RowV::Constant(c@));
                            assert(company_wf(c@));
                        }
                        let pos_text: String;
                        let neg_text: String;
                        if c.remainder_begin_month.cents >= 0 {
                            pos_text = format_amount(c.remainder_begin_month.cents);
                            neg_text = String::new();
                        } else {
                            pos_text = String::new();
                            neg_text = format_amount(-c.remainder_begin_month.cents);
                        }
                        let seeded = EditedCompanyRow {
                            id: c.id,
                            name: c.name.clone(),
                            remainder_begin_month_pos: pos_text,
                            remainder_begin_month_neg: neg_text,
                            debit_turnover: format_amount(c.debit_turnover.cents),
                            credit_turnover: format_amount(c.credit_turnover.cents),
                            error: None,
                        };
                        proof {
                            assert(seeded@.pos =~= seeded_edit_row(c@).pos);
                            assert(seeded@.neg =~= seeded_edit_row(c@).neg);
                            assert(seeded@ =~= seeded_edit_row(c@));
                        }
                        replacement = Some(Row::BeingEdited(seeded));
                    }
                },
                _ => {},
            }
            proof {
                assert(views_of_rows(self.rows@)[i as int] == s0.rows[i as int]);
            }
            match replacement {
                Some(r) => {
                    proof {
                        assert(r@ == edit_seed_row(s0.rows[i as int], s0.selected_rows));
                    }
                    self.rows.set(i, r);
                },
                None => {
                    proof {
                        assert(s0.rows[i as int] == edit_seed_row(
                            s0.rows[i as int],
                            s0.selected_rows,
                        ));
                    }
                },
            }
            i = i + 1;
        }
        proof {
            assert(views_of_rows(self.rows@) =~= s0.rows.map_values(
                edit_seed_fn(s0.selected_rows),
            ));
            assert(self@ =~= edit_selected_spec(s0));
            let rows = edit_selected_spec(s0).rows;
            assert(rows_wf(rows)) by {
                assert(forall|k: int|
                    0 <= k < s0.rows.len() ==> rows[k] == edit_seed_row(
                        #[trigger] s0.rows[k],
                        s0.selected_rows,
                    ));
                assert(forall|k: int|
                    0 <= k < rows.len() ==> ((#[trigger] rows[k]) is Total <==> s0.rows[k]
                        is Total));
            }
        }
    }

    /// Saves the rows staged for addition: returns the batch that passed
    /// validation for dispatch, re-flags every staged row with its outcome,
    /// and returns to Normal mode only when nothing failed. A failing row
    /// is kept and flagged, never silently dropped.
    pub fn save_new_rows(&mut self) -> (out: Vec<NewCompany>)
        requires
            state_wf(old(self)@),
        ensures
            final(self)@ == save_new_spec(old(self)@),
            views_of_new_companies(out@) == validated_new_of(old(self)@.rows),
            state_wf(final(self)@),
    {
        let ghost s0 = self@;
        let ghost f = new_row_outcome_fn();
        let mut out: Vec<NewCompany> = Vec::new();
        let mut found_invalid = false;
        let mut i: usize = 0;
        proof {
            assert(s0.rows.take(0) =~= Seq::<RowV>::empty());
            assert(views_of_new_companies(out@) =~= s0.rows.take(0).filter_map(f));
        }
        while i < self.rows.len()
            invariant
                i <= self.rows@.len(),
                self.rows@.len() == s0.rows.len(),
                state_wf(s0),
                f == new_row_outcome_fn(),
                forall|k: int|
                    0 <= k < i ==> views_of_rows(self.rows@)[k] == flag_new_row(
                        #[trigger] s0.rows[k],
                    ),
                forall|k: int|
                    i <= k < s0.rows.len() ==> views_of_rows(self.rows@)[k] == #[trigger] s0
                        .rows[k],
                views_of_new_companies(out@) == s0.rows.take(i as int).filter_map(f),
                found_invalid == (exists|k: int|
                    0 <= k < i && is_invalid_new(#[trigger] s0.rows[k])),
                self.mode == s0.mode,
                self.need_to_fetch == s0.need_to_fetch,
                self.need_to_calculate_total == s0.need_to_calculate_total,
                views_of_ids(self.selected_rows@) == s0.selected_rows,
            decreases self.rows@.len() - i,
        {
            proof {
                lemma_filter_map_step(s0.rows, f, i as int);
                assert(views_of_rows(self.rows@)[i as int] == s0.rows[i as int]);
            }
            let mut replacement: Option<Row> = None;
            let mut now_invalid = false;
            match &self.rows[i] {
                Row::New(nr) => {
                    proof {
                        assert(s0.rows[i as int] == RowV::New(nr@));
                    }
                    match map_to_new(nr) {
                        Ok(c) => {
                            let mut updated = nr.clone();
                            updated.error = None;
                            proof {
                                assert(f(s0.rows[i as int]) == Some(c@));
                                assert(Row::New(updated)@ == flag_new_row(s0.rows[i as int]));
                            }
                            out.push(c);
                            replacement = Some(Row::New(updated));
                            proof {
                                assert(views_of_new_companies(out@) =~= s0.rows.take(
                                    i as int,
                                ).filter_map(f).push(out@.last()@));
                            }
                        },
                        Err(e) => {
                            let mut updated = nr.clone();
                            updated.error = Some(e);
                            proof {
                                assert(f(s0.rows[i as int]) is None);
                                assert(Row::New(updated)@ == flag_new_row(s0.rows[i as int]));
                                assert(is_invalid_new(s0.rows[i as int]));
                            }
                            now_invalid = true;
                            replacement = Some(Row::New(updated));
                        },
                    }
                },
                _ => {
                    proof {
                        assert(f(s0.rows[i as int]) is None);
                        assert(!is_invalid_new(s0.rows[i as int]));
                        assert(s0.rows[i as int] == flag_new_row(s0.rows[i as int]));
                    }
                },
            }
            if now_invalid {
                found_invalid = true;
            }
            match replacement {
                Some(r) => {
                    self.rows.set(i, r);
                },
                None => {},
            }
            proof {
                assert(found_invalid == (exists|k: int|
                    0 <= k < i + 1 && is_invalid_new(#[trigger] s0.rows[k]))) by {
                    if found_invalid {
                        if now_invalid {
                            assert(is_invalid_new(s0.rows[i as int]));
                        }
                    }
                }
            }
            i = i + 1;
        }
        if !found_invalid {
            self.mode = Mode::Normal;
        }
        proof {
            assert(s0.rows.take(s0.rows.len() as int) =~= s0.rows);
            assert(views_of_rows(self.rows@) =~= s0.rows.map_values(flag_new_fn()));
            assert(found_invalid == any_invalid_new(s0.rows));
            assert(self@ =~= save_new_spec(s0));
            let rows = save_new_spec(s0).rows;
            assert(rows_wf(rows)) by {
                assert(forall|k: int|
                    0 <= k < s0.rows.len() ==> rows[k] == flag_new_row(#[trigger] s0.rows[k]));
                assert(forall|k: int|
                    0 <= k < rows.len() ==> ((#[trigger] rows[k]) is Total <==> s0.rows[k]
                        is Total));
            }
        }
        out
    }

    /// Saves the rows staged for editing, mirroring `save_new_rows`.
    pub fn save_edited_rows(&mut self) -> (out: Vec<EditedCompany>)
        requires
            state_wf(old(self)@),
        ensures
            final(self)@ == save_edited_spec(old(self)@),
            views_of_edited_companies(out@) == validated_edited_of(old(self)@.rows),
            state_wf(final(self)@),
    {
        let ghost s0 = self@;
        let ghost f = edited_row_outcome_fn();
        let mut out: Vec<EditedCompany> = Vec::new();
        let mut found_invalid = false;
        let mut i: usize = 0;
        proof {
            assert(s0.rows.take(0) =~= Seq::<RowV>::empty());
            assert(views_of_edited_companies(out@) =~= s0.rows.take(0).filter_map(f));
        }
        while i < self.rows.len()
            invariant
                i <= self.rows@.len(),
                self.rows@.len() == s0.rows.len(),
                state_wf(s0),
                f == edited_row_outcome_fn(),
                forall|k: int|
                    0 <= k < i ==> views_of_rows(self.rows@)[k] == flag_edited_row(
                        #[trigger] s0.rows[k],
                    ),
                forall|k: int|
                    i <= k < s0.rows.len() ==> views_of_rows(self.rows@)[k] == #[trigger] s0
                        .rows[k],
                views_of_edited_companies(out@) == s0.rows.take(i as int).filter_map(f),
                found_invalid == (exists|k: int|
                    0 <= k < i && is_invalid_edited(#[trigger] s0.rows[k])),
                self.mode == s0.mode,
                self.need_to_fetch == s0.need_to_fetch,
                self.need_to_calculate_total == s0.need_to_calculate_total,
                views_of_ids(self.selected_rows@) == s0.selected_rows,
            decreases self.rows@.len() - i,
        {
            proof {
                lemma_filter_map_step(s0.rows, f, i as int);
                assert(views_of_rows(self.rows@)[i as int] == s0.rows[i as int]);
            }
            let mut replacement: Option<Row> = None;
            let mut now_invalid = false;
            match &self.rows[i] {
                Row::BeingEdited(er) => {
                    proof {
                        assert(s0.rows[i as int] == RowV::BeingEdited(er@));
                    }
                    match map_to_edited(er) {
                        Ok(c) => {
                            let mut updated = er.clone();
                            updated.error = None;
                            proof {
                                assert(f(s0.rows[i as int]) == Some(c@));
                                assert(Row::BeingEdited(updated)@ == flag_edited_row(
                                    s0.rows[i as int],
                                ));
                            }
                            out.push(c);
                            replacement = Some(Row::BeingEdited(updated));
                            proof {
                                assert(views_of_edited_companies(out@) =~= s0.rows.take(
                                    i as int,
                                ).filter_map(f).push(out@.last()@));
                            }
                        },
                        Err(e) => {
                            let mut updated = er.clone();
                            updated.error = Some(e);
                            proof {
                                assert(f(s0.rows[i as int]) is None);
                                assert(Row::BeingEdited(updated)@ == flag_edited_row(
                                    s0.rows[i as int],
                                ));
                                assert(is_invalid_edited(s0.rows[i as int]));
                            }
                            now_invalid = true;
                            replacement = Some(Row::BeingEdited(updated));
                        },
                    }
                },
                _ => {
                    proof {
                        assert(f(s0.rows[i as int]) is None);
                        assert(!is_invalid_edited(s0.rows[i as int]));
                        assert(s0.rows[i as int] == flag_edited_row(s0.rows[i as int]));
                    }
                },
            }
            if now_invalid {
                found_invalid = true;
            }
            match replacement {
                Some(r) => {
                    self.rows.set(i, r);
                },
                None => {},
            }
            proof {
                assert(found_invalid == (exists|k: int|
                    0 <= k < i + 1 && is_invalid_edited(#[trigger] s0.rows[k]))) by {
                    if found_invalid {
                        if now_invalid {
                            assert(is_invalid_edited(s0.rows[i as int]));
                        }
                    }
                }
            }
            i = i + 1;
        }
        if !found_invalid {
            self.mode = Mode::Normal;
        }
        proof {
            assert(s0.rows.take(s0.rows.len() as int) =~= s0.rows);
            assert(views_of_rows(self.rows@) =~= s0.rows.map_values(flag_edited_fn()));
            assert(found_invalid == any_invalid_edited(s0.rows));
            assert(self@ =~= save_edited_spec(s0));
            let rows = save_edited_spec(s0).rows;
            assert(rows_wf(rows)) by {
                assert(forall|k: int|
                    0 <= k < s0.rows.len() ==> rows[k] == flag_edited_row(#[trigger] s0.rows[k]));
                assert(forall|k: int|
                    0 <= k < rows.len() ==> ((#[trigger] rows[k]) is Total <==> s0.rows[k]
                        is Total));
            }
        }
        out
    }
}

/// A successful fetch result carrying the given companies.
pub open spec fn fetch_ok_op(cs: Seq<CompanyV>) -> OperationV {
    OperationV::FetchAll { all_companies: Ok(cs) }
}

/// Filtering a second time by the same predicate changes nothing.
pub proof fn lemma_filter_idempotent<A>(s: Seq<A>, p: spec_fn(A) -> bool)
    ensures
        s.filter(p).filter(p) == s.filter(p),
{
    let f = s.filter(p);
    assert(forall|i: int| 0 <= i < f.len() ==> p(#[trigger] f[i]));
    lemma_filter_all_true(f, p);
}

/// Folding the same successful fetch result twice leaves the same state
/// as folding it once: the same row sequence, the same selection, and
/// hence the same aggregate.
pub proof fn lemma_fetch_idempotent(s: StateV, cs: Seq<CompanyV>)
    ensures
        apply_operation_spec(apply_operation_spec(s, fetch_ok_op(cs)), fetch_ok_op(cs))
            == apply_operation_spec(s, fetch_ok_op(cs)),
        total_of(
            constants_of(
                apply_operation_spec(
                    apply_operation_spec(s, fetch_ok_op(cs)),
                    fetch_ok_op(cs),
                ).rows,
            ),
        ) == total_of(constants_of(apply_operation_spec(s, fetch_ok_op(cs)).rows)),
{
    let s1 = apply_operation_spec(s, fetch_ok_op(cs));
    let s2 = apply_operation_spec(s1, fetch_ok_op(cs));
    lemma_filter_idempotent(s.selected_rows, selected_in_pred(cs));
    assert(s2 =~= s1);
}

/// Received messages are folded in strictly in receipt order. After a
/// fetch result, an add result keeps exactly the fetched persisted rows
/// and appends the newly persisted ones; a fetch result arriving after
/// that replaces the whole row sequence, whatever came before.
pub proof fn lemma_receipt_order(
    s: StateV,
    first: Seq<CompanyV>,
    added: Seq<CompanyV>,
    second: Seq<CompanyV>,
)
    ensures
        apply_operation_spec(
            apply_operation_spec(s, fetch_ok_op(first)),
            OperationV::Add { new_companies: added },
        ).rows == constant_rows_of(first) + constant_rows_of(added),
        apply_operation_spec(
            apply_operation_spec(
                apply_operation_spec(s, fetch_ok_op(first)),
                OperationV::Add { new_companies: added },
            ),
            fetch_ok_op(second),
        ).rows == constant_rows_of(second),
{
    let s1 = apply_operation_spec(s, fetch_ok_op(first));
    assert(forall|i: int|
        0 <= i < s1.rows.len() ==> retain_pred(RetainKind::ConstantOnly)(
            #[trigger] s1.rows[i],
        )) by {
        assert(forall|i: int|
            0 <= i < s1.rows.len() ==> #[trigger] s1.rows[i] == RowV::Constant(first[i]));
    }
    lemma_filter_all_true(s1.rows, retain_pred(RetainKind::ConstantOnly));
}

impl State {
    /// Decides whether the state satisfies its invariant, as `state_wf`
    /// asks: a guard for callers that cannot assume it.
    pub fn wf_check(&self) -> (r: bool)
        ensures
            r == state_wf(self@),
    {
        let ghost rvs = views_of_rows(self.rows@);
        let ghost sel = views_of_ids(self.selected_rows@);
        let n = self.rows.len();
        let mut i: usize = 0;
        while i < n
            invariant
                i <= rvs.len(),
                n == rvs.len(),
                rvs == views_of_rows(self.rows@),
                sel == views_of_ids(self.selected_rows@),
                forall|k: int|
                    0 <= k < i ==> ((#[trigger] rvs[k]) is Total ==> k == rvs.len() - 1),
                forall|k: int|
                    0 <= k < i ==> ((#[trigger] rvs[k]) matches RowV::Constant(c) ==> company_wf(
                        c,
                    )),
            decreases rvs.len() - i,
        {
            proof {
                assert(rvs[i as int] == self.rows@[i as int]@);
            }
            match &self.rows[i] {
                Row::Total(_) => {
                    if i != n - 1 {
                        proof {
                            assert(rvs[i as int] is Total && i as int != rvs.len() - 1);
                        }
                        return false;
                    }
                },
                Row::Constant(c) => {
                    if !company_wf_check(c) {
                        proof {
                            assert(rvs[i as int] matches RowV::Constant(cc) && !company_wf(cc));
                        }
                        return false;
                    }
                },
                _ => {},
            }
            i = i + 1;
        }
        let m = self.selected_rows.len();
        let mut a: usize = 0;
        while a < m
            invariant
                a <= sel.len(),
                m == sel.len(),
                sel == views_of_ids(self.selected_rows@),
                rows_wf(views_of_rows(self.rows@)),
                forall|x: int, y: int| 0 <= x < y < a ==> sel[x] != sel[y],
            decreases sel.len() - a,
        {
            let mut b: usize = 0;
            while b < a
                invariant
                    b <= a < sel.len(),
                    m == sel.len(),
                    sel == views_of_ids(self.selected_rows@),
                    forall|y: int| 0 <= y < b ==> sel[y] != sel[a as int],
                decreases a - b,
            {
                if self.selected_rows[b] == self.selected_rows[a] {
                    proof {
                        assert(sel[b as int] == sel[a as int]);
                    }
                    return false;
                }
                b = b + 1;
            }
            a = a + 1;
        }
        true
    }
}

/// A rendered amount text is never blank.
proof fn lemma_amount_text_nonempty(v: int)
    requires
        0 <= v,
    ensures
        amount_text(v).len() > 0,
{
    lemma_int_digits_text_digits(v / 100);
}

/// A staged edit seeded from a persisted record revalidates to the very
/// values it was seeded from: decomposing the signed opening remainder
/// into the sign-side texts inverts the validator's rule, as long as the
/// amounts lie within the input range.
pub proof fn lemma_edit_seed_revalidates(c: CompanyV)
    requires
        c.name.len() > 0,
        -PARSE_LIMIT_CENTS <= c.remainder_begin_month <= PARSE_LIMIT_CENTS,
        0 <= c.debit_turnover <= PARSE_LIMIT_CENTS,
        0 <= c.credit_turnover <= PARSE_LIMIT_CENTS,
    ensures
        map_to_edited_spec(seeded_edit_row(c)) == Ok::<EditedCompanyV, ValidationError>(
            EditedCompanyV {
                id: c.id,
                name: c.name,
                remainder_begin_month: c.remainder_begin_month,
                debit_turnover: c.debit_turnover,
                credit_turnover: c.credit_turnover,
            },
        ),
{
    let magnitude = if c.remainder_begin_month >= 0 {
        c.remainder_begin_month
    } else {
        -c.remainder_begin_month
    };
    lemma_amount_text_round_trip(magnitude);
    lemma_amount_text_nonempty(magnitude);
    lemma_amount_text_round_trip(c.debit_turnover);
    lemma_amount_text_nonempty(c.debit_turnover);
    lemma_amount_text_round_trip(c.credit_turnover);
    lemma_amount_text_nonempty(c.credit_turnover);
}

} // verus!
