//! The operation channel protocol: the closed set of result messages the
//! reconciler may receive back from dispatched persistence requests. One
//! logical message arrives per submitted request; order is not guaranteed
//! across distinct requests, and the reconciler folds messages in strictly
//! in receipt order.

use crate::model::Company;
use crate::model::CompanyV;
use crate::model::company_wf;
use crate::model::company_wf_check;
use crate::total::TotalRow;
use crate::total::TotalV;
use crate::total::views_of_companies;
use vstd::prelude::*;

verus! {

/// Views of a sequence of identifiers.
pub open spec fn views_of_ids(ids: Seq<i64>) -> Seq<int> {
    ids.map_values(|id: i64| id as int)
}

/// A store-level failure, surfaced as a non-fatal banner; the prior row
/// state is retained and the request is not retried.
#[derive(Debug)]
pub struct StoreError {
    pub message: String,
}

impl View for StoreError {
    type V = Seq<char>;

    open spec fn view(&self) -> Seq<char> {
        self.message@
    }
}

impl Clone for StoreError {
    fn clone(&self) -> (r: Self)
        ensures
            r@ == self@,
    {
        StoreError { message: self.message.clone() }
    }
}

/// A result message posted back to the reconciler by a completed
/// persistence request.
#[derive(Debug)]
pub enum Operation {
    /// The companies created by a batched add, as persisted (with assigned
    /// identifiers and computed closing remainders), in submission order.
    Add { new_companies: Vec<Company> },
    /// A batched edit was accepted; the reconciler re-fetches rather than
    /// carrying possibly stale derived fields.
    Edit,
    /// The full persisted row set, or the store failure that prevented
    /// reading it.
    FetchAll { all_companies: Result<Vec<Company>, StoreError> },
    /// The identifiers whose rows were removed from the store.
    Delete { deleted_companies: Vec<i64> },
    /// A freshly computed aggregate row.
    Total { total: TotalRow },
}

/// Mathematical image of a result message.
pub enum OperationV {
    Add { new_companies: Seq<CompanyV> },
    Edit,
    FetchAll { all_companies: Result<Seq<CompanyV>, Seq<char>> },
    Delete { deleted_companies: Seq<int> },
    Total { total: TotalV },
}

impl View for Operation {
    type V = OperationV;

    open spec fn view(&self) -> OperationV {
        match self {
            Operation::Add { new_companies } => OperationV::Add {
                new_companies: views_of_companies(new_companies@),
            },
            Operation::Edit => OperationV::Edit,
            Operation::FetchAll { all_companies } => OperationV::FetchAll {
                all_companies: match all_companies {
                    Ok(cs) => Ok(views_of_companies(cs@)),
                    Err(e) => Err(e@),
                },
            },
            Operation::Delete { deleted_companies } => OperationV::Delete {
                deleted_companies: views_of_ids(deleted_companies@),
            },
            Operation::Total { total } => OperationV::Total { total: total@ },
        }
    }
}

/// Every company in the sequence satisfies what the ledger expects of
/// persisted records.
pub open spec fn companies_wf(cs: Seq<CompanyV>) -> bool {
    forall|i: int| 0 <= i < cs.len() ==> company_wf(#[trigger] cs[i])
}

/// Every company carried by the message satisfies what the ledger expects
/// of persisted records.
pub open spec fn operation_wf(op: OperationV) -> bool {
    match op {
        OperationV::Add { new_companies } => companies_wf(new_companies),
        OperationV::FetchAll { all_companies: Ok(cs) } => companies_wf(cs),
        _ => true,
    }
}

/// Decides whether every company in a list is well-formed.
fn companies_wf_check(companies: &Vec<Company>) -> (r: bool)
    ensures
        r == companies_wf(views_of_companies(companies@)),
{
    let ghost cs = views_of_companies(companies@);
    let mut i: usize = 0;
    while i < companies.len()
        invariant
            i <= companies@.len(),
            cs == views_of_companies(companies@),
            forall|k: int| 0 <= k < i ==> company_wf(#[trigger] cs[k]),
        decreases companies@.len() - i,
    {
        if !company_wf_check(&companies[i]) {
            proof {
                assert(!company_wf(cs[i as int]));
            }
            return false;
        }
        i = i + 1;
    }
    true
}


/// Decides whether a received message is well-formed, as `operation_wf`
/// asks: a guard for callers that cannot assume it.
pub fn operation_wf_check(op: &Operation) -> (r: bool)
    ensures
        r == operation_wf(op@),
{
    match op {
        Operation::Add { new_companies } => companies_wf_check(new_companies),
        Operation::FetchAll { all_companies } => match all_companies {
            Ok(companies) => companies_wf_check(companies),
            Err(_) => true,
        },
        _ => true,
    }
}

} // verus!
