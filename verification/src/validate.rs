//! Validation of staged rows into domain records.
//!
//! The signed-remainder rule: exactly one of the two sign-side fields may
//! be filled; the debit-side text gives the value, the credit-side text
//! gives its negation. Turnovers must parse and be non-negative; the name
//! must not be blank. A malformed row is never silently discarded: the
//! caller keeps it and flags it with the reported failure.

use crate::model::EditedCompany;
use crate::model::EditedCompanyV;
use crate::model::NewCompany;
use crate::model::NewCompanyV;
use crate::model::edited_company_wf;
use crate::model::new_company_wf;
use crate::money::Money;
use crate::rows::EditRowV;
use crate::rows::EditedCompanyRow;
use crate::rows::NewCompanyRow;
use crate::rows::NewRowV;
use crate::rows::ValidationError;
use crate::text::amount_accepted;
use crate::text::amount_val;
use crate::text::parse_amount;
use vstd::prelude::*;

verus! {

/// Validation of the shared text fields: the signed opening remainder from
/// the sign-side pair, then the two turnovers, then the name. On success,
/// the values are (opening remainder, debit turnover, credit turnover).
pub open spec fn fields_validation(
    name: Seq<char>,
    pos: Seq<char>,
    neg: Seq<char>,
    debit: Seq<char>,
    credit: Seq<char>,
) -> Result<(int, int, int), ValidationError> {
    if pos.len() == 0 && neg.len() == 0 {
        Err(ValidationError::MissingField)
    } else if pos.len() > 0 && neg.len() > 0 {
        Err(ValidationError::AmbiguousSign)
    } else if pos.len() > 0 && !amount_accepted(pos) {
        Err(ValidationError::InvalidNumber)
    } else if neg.len() > 0 && !amount_accepted(neg) {
        Err(ValidationError::InvalidNumber)
    } else if !amount_accepted(debit) {
        Err(ValidationError::InvalidNumber)
    } else if amount_val(debit) < 0 {
        Err(ValidationError::NegativeTurnover)
    } else if !amount_accepted(credit) {
        Err(ValidationError::InvalidNumber)
    } else if amount_val(credit) < 0 {
        Err(ValidationError::NegativeTurnover)
    } else if name.len() == 0 {
        Err(ValidationError::EmptyName)
    } else {
        Ok(
            (
                if pos.len() > 0 {
                    amount_val(pos)
                } else {
                    -amount_val(neg)
                },
                amount_val(debit),
                amount_val(credit),
            ),
        )
    }
}

/// Validation of a row staged for addition.
pub open spec fn map_to_new_spec(r: NewRowV) -> Result<NewCompanyV, ValidationError> {
    match fields_validation(r.name, r.pos, r.neg, r.debit, r.credit) {
        Ok(v) => Ok(
            NewCompanyV {
                name: r.name,
                remainder_begin_month: v.0,
                debit_turnover: v.1,
                credit_turnover: v.2,
            },
        ),
        Err(e) => Err(e),
    }
}

/// Validation of a row staged for editing.
pub open spec fn map_to_edited_spec(r: EditRowV) -> Result<EditedCompanyV, ValidationError> {
    match fields_validation(r.name, r.pos, r.neg, r.debit, r.credit) {
        Ok(v) => Ok(
            EditedCompanyV {
                id: r.id,
                name: r.name,
                remainder_begin_month: v.0,
                debit_turnover: v.1,
                credit_turnover: v.2,
            },
        ),
        Err(e) => Err(e),
    }
}

/// Validates the shared text fields.
fn validate_fields(
    name: &String,
    pos: &String,
    neg: &String,
    debit: &String,
    credit: &String,
) -> (r: Result<(Money, Money, Money), ValidationError>)
    ensures
        r matches Ok(v) ==> fields_validation(name@, pos@, neg@, debit@, credit@) == Ok::<
            (int, int, int),
            ValidationError,
        >((v.0@, v.1@, v.2@)),
        r matches Err(e) ==> fields_validation(name@, pos@, neg@, debit@, credit@) == Err::<
            (int, int, int),
            ValidationError,
        >(e),
{
    let pos_blank = pos.as_str().is_empty();
    let neg_blank = neg.as_str().is_empty();
    if pos_blank && neg_blank {
        return Err(ValidationError::MissingField);
    }
    if !pos_blank && !neg_blank {
        return Err(ValidationError::AmbiguousSign);
    }
    let begin: Money;
    if !pos_blank {
        match parse_amount(pos.as_str()) {
            Some(m) => {
                begin = m;
            },
            None => {
                return Err(ValidationError::InvalidNumber);
            },
        }
    } else {
        match parse_amount(neg.as_str()) {
            Some(m) => {
                begin = Money { cents: -m.cents };
            },
            None => {
                return Err(ValidationError::InvalidNumber);
            },
        }
    }
    let deb = match parse_amount(debit.as_str()) {
        Some(m) => m,
        None => {
            return Err(ValidationError::InvalidNumber);
        },
    };
    if deb.cents < 0 {
        return Err(ValidationError::NegativeTurnover);
    }
    let cred = match parse_amount(credit.as_str()) {
        Some(m) => m,
        None => {
            return Err(ValidationError::InvalidNumber);
        },
    };
    if cred.cents < 0 {
        return Err(ValidationError::NegativeTurnover);
    }
    if name.as_str().is_empty() {
        return Err(ValidationError::EmptyName);
    }
    Ok((begin, deb, cred))
}

/// Validates a row staged for addition into a record ready for creation.
pub fn map_to_new(row: &NewCompanyRow) -> (r: Result<NewCompany, ValidationError>)
    ensures
        r matches Ok(c) ==> map_to_new_spec(row@) == Ok::<NewCompanyV, ValidationError>(c@)
            && new_company_wf(c@),
        r matches Err(e) ==> map_to_new_spec(row@) == Err::<NewCompanyV, ValidationError>(e),
{
    match validate_fields(
        &row.name,
        &row.remainder_begin_month_pos,
        &row.remainder_begin_month_neg,
        &row.debit_turnover,
        &row.credit_turnover,
    ) {
        Ok(v) => Ok(
            NewCompany {
                name: row.name.clone(),
                remainder_begin_month: v.0,
                debit_turnover: v.1,
                credit_turnover: v.2,
            },
        ),
        Err(e) => Err(e),
    }
}

/// Validates a row staged for editing into a record ready for update.
pub fn map_to_edited(row: &EditedCompanyRow) -> (r: Result<EditedCompany, ValidationError>)
    ensures
        r matches Ok(c) ==> map_to_edited_spec(row@) == Ok::<EditedCompanyV, ValidationError>(c@)
            && edited_company_wf(c@),
        r matches Err(e) ==> map_to_edited_spec(row@) == Err::<EditedCompanyV, ValidationError>(e),
{
    match validate_fields(
        &row.name,
        &row.remainder_begin_month_pos,
        &row.remainder_begin_month_neg,
        &row.debit_turnover,
        &row.credit_turnover,
    ) {
        Ok(v) => Ok(
            EditedCompany {
                id: row.id,
                name: row.name.clone(),
                remainder_begin_month: v.0,
                debit_turnover: v.1,
                credit_turnover: v.2,
            },
        ),
        Err(e) => Err(e),
    }
}

/// With exactly one sign-side field filled with an accepted non-negative
/// amount text, and the remaining fields passing their own rules, a staged
/// row validates to an opening remainder of that amount's value, signed by
/// the side used: positive for the debit side, negative for the credit side.
pub proof fn lemma_sign_side_value(r: NewRowV)
    requires
        (r.pos.len() > 0) != (r.neg.len() > 0),
        r.pos.len() > 0 ==> amount_accepted(r.pos) && amount_val(r.pos) >= 0,
        r.neg.len() > 0 ==> amount_accepted(r.neg) && amount_val(r.neg) >= 0,
        amount_accepted(r.debit) && amount_val(r.debit) >= 0,
        amount_accepted(r.credit) && amount_val(r.credit) >= 0,
        r.name.len() > 0,
    ensures
        map_to_new_spec(r) matches Ok(c) && c.remainder_begin_month == (
        if r.pos.len() > 0 {
            amount_val(r.pos)
        } else {
            -amount_val(r.neg)
        }),
        r.pos.len() > 0 ==> (map_to_new_spec(r) matches Ok(c) && c.remainder_begin_month >= 0),
        r.neg.len() > 0 ==> (map_to_new_spec(r) matches Ok(c) && c.remainder_begin_month <= 0),
{
}

/// A staged row with both sign-side fields filled is rejected as carrying
/// a conflicting sign; one with both blank is rejected as missing its
/// opening remainder. Whatever the other fields hold.
pub proof fn lemma_sign_conflicts(r: NewRowV, e: EditRowV)
    ensures
        r.pos.len() > 0 && r.neg.len() > 0 ==> map_to_new_spec(r) == Err::<
            NewCompanyV,
            ValidationError,
        >(ValidationError::AmbiguousSign),
        r.pos.len() == 0 && r.neg.len() == 0 ==> map_to_new_spec(r) == Err::<
            NewCompanyV,
            ValidationError,
        >(ValidationError::MissingField),
        e.pos.len() > 0 && e.neg.len() > 0 ==> map_to_edited_spec(e) == Err::<
            EditedCompanyV,
            ValidationError,
        >(ValidationError::AmbiguousSign),
        e.pos.len() == 0 && e.neg.len() == 0 ==> map_to_edited_spec(e) == Err::<
            EditedCompanyV,
            ValidationError,
        >(ValidationError::MissingField),
{
}

} // verus!
