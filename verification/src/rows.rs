//! Display rows in their lifecycle phases: persisted, staged for add,
//! staged for edit, and the aggregate total.

use crate::model::Company;
use crate::model::CompanyV;
use crate::total::TotalRow;
use crate::total::TotalV;
use vstd::prelude::*;

verus! {

/// Why a staged row was refused by validation.
#[derive(Clone, Copy, PartialEq, Eq, Structural, Debug)]
pub enum ValidationError {
    /// Both signed-remainder fields are blank.
    MissingField,
    /// Both signed-remainder fields are filled: the sign is in conflict.
    AmbiguousSign,
    /// A numeric field does not follow the amount grammar or is too large.
    InvalidNumber,
    /// A turnover field denotes a negative amount.
    NegativeTurnover,
    /// The name field is blank.
    EmptyName,
}

/// A row staged for addition: raw text pending validation. At most one of
/// the two signed-remainder fields is meant to be filled; the validator
/// rejects the row when both are. `error` carries the latest validation
/// failure so the row is flagged rather than silently dropped.
#[derive(Debug)]
pub struct NewCompanyRow {
    pub name: String,
    pub remainder_begin_month_pos: String,
    pub remainder_begin_month_neg: String,
    pub debit_turnover: String,
    pub credit_turnover: String,
    pub error: Option<ValidationError>,
}

/// Mathematical image of a row staged for addition.
pub struct NewRowV {
    pub name: Seq<char>,
    pub pos: Seq<char>,
    pub neg: Seq<char>,
    pub debit: Seq<char>,
    pub credit: Seq<char>,
    pub error: Option<ValidationError>,
}

impl View for NewCompanyRow {
    type V = NewRowV;

    open spec fn view(&self) -> NewRowV {
        NewRowV {
            name: self.name@,
            pos: self.remainder_begin_month_pos@,
            neg: self.remainder_begin_month_neg@,
            debit: self.debit_turnover@,
            credit: self.credit_turnover@,
            error: self.error,
        }
    }
}

/// The blank staged row appended when the table enters Add mode.
pub open spec fn new_row_default() -> NewRowV {
    NewRowV {
        name: Seq::empty(),
        pos: Seq::empty(),
        neg: Seq::empty(),
        debit: Seq::empty(),
        credit: Seq::empty(),
        error: None,
    }
}

impl Default for NewCompanyRow {
    fn default() -> (r: Self)
        ensures
            r@ == new_row_default(),
    {
        let r = NewCompanyRow {
            name: String::new(),
            remainder_begin_month_pos: String::new(),
            remainder_begin_month_neg: String::new(),
            debit_turnover: String::new(),
            credit_turnover: String::new(),
            error: None,
        };
        proof {
            assert(r@.name =~= new_row_default().name);
            assert(r@.pos =~= new_row_default().pos);
            assert(r@.neg =~= new_row_default().neg);
            assert(r@.debit =~= new_row_default().debit);
            assert(r@.credit =~= new_row_default().credit);
        }
        r
    }
}

impl Clone for NewCompanyRow {
    fn clone(&self) -> (r: Self)
        ensures
            r@ == self@,
    {
        NewCompanyRow {
            name: self.name.clone(),
            remainder_begin_month_pos: self.remainder_begin_month_pos.clone(),
            remainder_begin_month_neg: self.remainder_begin_month_neg.clone(),
            debit_turnover: self.debit_turnover.clone(),
            credit_turnover: self.credit_turnover.clone(),
            error: self.error,
        }
    }
}

/// A row staged for editing: the same text fields plus the identifier of
/// the persisted record it replaces.
#[derive(Debug)]
pub struct EditedCompanyRow {
    pub id: i64,
    pub name: String,
    pub remainder_begin_month_pos: String,
    pub remainder_begin_month_neg: String,
    pub debit_turnover: String,
    pub credit_turnover: String,
    pub error: Option<ValidationError>,
}

/// Mathematical image of a row staged for editing.
pub struct EditRowV {
    pub id: int,
    pub name: Seq<char>,
    pub pos: Seq<char>,
    pub neg: Seq<char>,
    pub debit: Seq<char>,
    pub credit: Seq<char>,
    pub error: Option<ValidationError>,
}

impl View for EditedCompanyRow {
    type V = EditRowV;

    open spec fn view(&self) -> EditRowV {
        EditRowV {
            id: self.id as int,
            name: self.name@,
            pos: self.remainder_begin_month_pos@,
            neg: self.remainder_begin_month_neg@,
            debit: self.debit_turnover@,
            credit: self.credit_turnover@,
            error: self.error,
        }
    }
}

impl Clone for EditedCompanyRow {
    fn clone(&self) -> (r: Self)
        ensures
            r@ == self@,
    {
        EditedCompanyRow {
            id: self.id,
            name: self.name.clone(),
            remainder_begin_month_pos: self.remainder_begin_month_pos.clone(),
            remainder_begin_month_neg: self.remainder_begin_month_neg.clone(),
            debit_turnover: self.debit_turnover.clone(),
            credit_turnover: self.credit_turnover.clone(),
            error: self.error,
        }
    }
}

/// One display row of the table.
#[derive(Debug)]
pub enum Row {
    /// A persisted record, read-only in the table.
    Constant(Company),
    /// A persisted record replaced in place by a staged edit.
    BeingEdited(EditedCompanyRow),
    /// A staged addition.
    New(NewCompanyRow),
    /// The aggregate total, always last when present.
    Total(TotalRow),
}

/// Mathematical image of one display row.
pub enum RowV {
    Constant(CompanyV),
    BeingEdited(EditRowV),
    New(NewRowV),
    Total(TotalV),
}

impl View for Row {
    type V = RowV;

    open spec fn view(&self) -> RowV {
        match self {
            Row::Constant(c) => RowV::Constant(c@),
            Row::BeingEdited(r) => RowV::BeingEdited(r@),
            Row::New(r) => RowV::New(r@),
            Row::Total(t) => RowV::Total(t@),
        }
    }
}

impl Clone for Row {
    fn clone(&self) -> (r: Self)
        ensures
            r@ == self@,
    {
        match self {
            Row::Constant(c) => Row::Constant(c.clone()),
            Row::BeingEdited(e) => Row::BeingEdited(e.clone()),
            Row::New(n) => Row::New(n.clone()),
            Row::Total(t) => Row::Total(t.clone()),
        }
    }
}

impl Row {
    /// The persisted record under the row; only meaningful on a persisted
    /// row, which the caller must ensure.
    pub fn constant(&self) -> (r: &Company)
        requires
            self@ is Constant,
        ensures
            self@ == RowV::Constant(r@),
    {
        if let Row::Constant(company) = self {
            company
        } else {
            vstd::pervasive::unreached()
        }
    }
}

} // verus!
