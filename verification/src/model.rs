//! The persisted entity and the validated staging records.

use crate::money::AMOUNT_LIMIT_CENTS;
use crate::money::Money;
use crate::money::PARSE_LIMIT_CENTS;
use crate::money::money_wf;
use vstd::prelude::*;

verus! {

/// A persisted company record, held as a read-only copy of what the store
/// reports. The identifier is store-assigned and stable; the closing
/// remainder is derived by the gateway at write time.
#[derive(Debug)]
pub struct Company {
    pub id: i64,
    pub name: String,
    pub remainder_begin_month: Money,
    pub debit_turnover: Money,
    pub credit_turnover: Money,
    pub remainder_end_month: Money,
}

/// Mathematical image of a persisted company record.
pub struct CompanyV {
    pub id: int,
    pub name: Seq<char>,
    pub remainder_begin_month: int,
    pub debit_turnover: int,
    pub credit_turnover: int,
    pub remainder_end_month: int,
}

impl View for Company {
    type V = CompanyV;

    open spec fn view(&self) -> CompanyV {
        CompanyV {
            id: self.id as int,
            name: self.name@,
            remainder_begin_month: self.remainder_begin_month@,
            debit_turnover: self.debit_turnover@,
            credit_turnover: self.credit_turnover@,
            remainder_end_month: self.remainder_end_month@,
        }
    }
}

/// What the ledger expects of every persisted record: a non-empty name,
/// non-negative turnovers, and amounts within the storable range.
pub open spec fn company_wf(c: CompanyV) -> bool {
    &&& c.name.len() > 0
    &&& money_wf(c.remainder_begin_month)
    &&& 0 <= c.debit_turnover <= AMOUNT_LIMIT_CENTS
    &&& 0 <= c.credit_turnover <= AMOUNT_LIMIT_CENTS
    &&& money_wf(c.remainder_end_month)
}

impl Clone for Company {
    fn clone(&self) -> (r: Self)
        ensures
            r@ == self@,
    {
        Company {
            id: self.id,
            name: self.name.clone(),
            remainder_begin_month: self.remainder_begin_month,
            debit_turnover: self.debit_turnover,
            credit_turnover: self.credit_turnover,
            remainder_end_month: self.remainder_end_month,
        }
    }
}

/// A staged addition after validation: ready to be handed to the gateway
/// for creation.
#[derive(Debug)]
pub struct NewCompany {
    pub name: String,
    pub remainder_begin_month: Money,
    pub debit_turnover: Money,
    pub credit_turnover: Money,
}

/// Mathematical image of a validated staged addition.
pub struct NewCompanyV {
    pub name: Seq<char>,
    pub remainder_begin_month: int,
    pub debit_turnover: int,
    pub credit_turnover: int,
}

impl View for NewCompany {
    type V = NewCompanyV;

    open spec fn view(&self) -> NewCompanyV {
        NewCompanyV {
            name: self.name@,
            remainder_begin_month: self.remainder_begin_month@,
            debit_turnover: self.debit_turnover@,
            credit_turnover: self.credit_turnover@,
        }
    }
}

/// What validation guarantees of every staged addition it lets through.
pub open spec fn new_company_wf(c: NewCompanyV) -> bool {
    &&& c.name.len() > 0
    &&& -PARSE_LIMIT_CENTS <= c.remainder_begin_month <= PARSE_LIMIT_CENTS
    &&& 0 <= c.debit_turnover <= PARSE_LIMIT_CENTS
    &&& 0 <= c.credit_turnover <= PARSE_LIMIT_CENTS
}

/// A staged edit after validation: carries the identifier of the persisted
/// record it replaces.
#[derive(Debug)]
pub struct EditedCompany {
    pub id: i64,
    pub name: String,
    pub remainder_begin_month: Money,
    pub debit_turnover: Money,
    pub credit_turnover: Money,
}

/// Mathematical image of a validated staged edit.
pub struct EditedCompanyV {
    pub id: int,
    pub name: Seq<char>,
    pub remainder_begin_month: int,
    pub debit_turnover: int,
    pub credit_turnover: int,
}

impl View for EditedCompany {
    type V = EditedCompanyV;

    open spec fn view(&self) -> EditedCompanyV {
        EditedCompanyV {
            id: self.id as int,
            name: self.name@,
            remainder_begin_month: self.remainder_begin_month@,
            debit_turnover: self.debit_turnover@,
            credit_turnover: self.credit_turnover@,
        }
    }
}

/// What validation guarantees of every staged edit it lets through.
pub open spec fn edited_company_wf(c: EditedCompanyV) -> bool {
    &&& c.name.len() > 0
    &&& -PARSE_LIMIT_CENTS <= c.remainder_begin_month <= PARSE_LIMIT_CENTS
    &&& 0 <= c.debit_turnover <= PARSE_LIMIT_CENTS
    &&& 0 <= c.credit_turnover <= PARSE_LIMIT_CENTS
}

/// Decides whether a company record is well-formed, as `company_wf` asks.
pub fn company_wf_check(c: &Company) -> (r: bool)
    ensures
        r == company_wf(c@),
{
    !c.name.as_str().is_empty() && -AMOUNT_LIMIT_CENTS <= c.remainder_begin_month.cents
        && c.remainder_begin_month.cents <= AMOUNT_LIMIT_CENTS && 0 <= c.debit_turnover.cents
        && c.debit_turnover.cents <= AMOUNT_LIMIT_CENTS && 0 <= c.credit_turnover.cents
        && c.credit_turnover.cents <= AMOUNT_LIMIT_CENTS
        && -AMOUNT_LIMIT_CENTS <= c.remainder_end_month.cents
        && c.remainder_end_month.cents <= AMOUNT_LIMIT_CENTS
}

/// Folds an accepted edit back into the company record it targets. The
/// closing remainder is left as it was: the store recomputes it, and the
/// reconciler re-fetches after an acknowledged edit.
pub fn merge_edit(company: &mut Company, edited: EditedCompany)
    ensures
        final(company)@ == (CompanyV {
            id: edited@.id,
            name: edited@.name,
            remainder_begin_month: edited@.remainder_begin_month,
            debit_turnover: edited@.debit_turnover,
            credit_turnover: edited@.credit_turnover,
            remainder_end_month: old(company)@.remainder_end_month,
        }),
{
    company.id = edited.id;
    company.name = edited.name;
    company.remainder_begin_month = edited.remainder_begin_month;
    company.debit_turnover = edited.debit_turnover;
    company.credit_turnover = edited.credit_turnover;
}

} // verus!
