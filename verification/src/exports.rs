//! The export mapping: persisted rows flattened into spreadsheet cells,
//! with each signed remainder split into its debit or credit column. The
//! spreadsheet writer itself lives outside the library.

use crate::model::Company;
use crate::model::CompanyV;
use crate::model::company_wf;
use crate::money::Money;
use crate::rows::Row;
use crate::rows::RowV;
use crate::state::constant_company_fn;
use crate::state::constants_of;
use crate::state::lemma_filter_map_step;
use crate::state::rows_wf;
use crate::state::views_of_rows;
use vstd::prelude::*;

verus! {

/// One spreadsheet line for a persisted record: remainders split by sign
/// into a filled debit or credit cell, the other left empty.
#[derive(Debug)]
pub struct CompanyExcel {
    pub id: i64,
    pub name: String,
    pub remainder_begin_month_debit: Option<Money>,
    pub remainder_begin_month_credit: Option<Money>,
    pub debit_turnover: Money,
    pub credit_turnover: Money,
    pub remainder_end_month_debit: Option<Money>,
    pub remainder_end_month_credit: Option<Money>,
}

/// Mathematical image of one spreadsheet line.
pub struct CompanyExcelV {
    pub id: int,
    pub name: Seq<char>,
    pub begin_debit: Option<int>,
    pub begin_credit: Option<int>,
    pub debit_turnover: int,
    pub credit_turnover: int,
    pub end_debit: Option<int>,
    pub end_credit: Option<int>,
}

impl View for CompanyExcel {
    type V = CompanyExcelV;

    open spec fn view(&self) -> CompanyExcelV {
        CompanyExcelV {
            id: self.id as int,
            name: self.name@,
            begin_debit: match self.remainder_begin_month_debit {
                Some(m) => Some(m@),
                None => None,
            },
            begin_credit: match self.remainder_begin_month_credit {
                Some(m) => Some(m@),
                None => None,
            },
            debit_turnover: self.debit_turnover@,
            credit_turnover: self.credit_turnover@,
            end_debit: match self.remainder_end_month_debit {
                Some(m) => Some(m@),
                None => None,
            },
            end_credit: match self.remainder_end_month_credit {
                Some(m) => Some(m@),
                None => None,
            },
        }
    }
}

/// The spreadsheet line a persisted record flattens to: each remainder's
/// magnitude lands in the column of its ledger side (zero on the debit
/// side), the other column stays empty.
pub open spec fn excel_of(c: CompanyV) -> CompanyExcelV {
    CompanyExcelV {
        id: c.id,
        name: c.name,
        begin_debit: if c.remainder_begin_month >= 0 {
            Some(c.remainder_begin_month)
        } else {
            None
        },
        begin_credit: if c.remainder_begin_month >= 0 {
            None
        } else {
            Some(-c.remainder_begin_month)
        },
        debit_turnover: c.debit_turnover,
        credit_turnover: c.credit_turnover,
        end_debit: if c.remainder_end_month >= 0 {
            Some(c.remainder_end_month)
        } else {
            None
        },
        end_credit: if c.remainder_end_month >= 0 {
            None
        } else {
            Some(-c.remainder_end_month)
        },
    }
}

/// `excel_of` as a value, so that every use names one function.
pub open spec fn excel_fn() -> spec_fn(CompanyV) -> CompanyExcelV {
    |c: CompanyV| excel_of(c)
}

/// Views of a sequence of spreadsheet lines.
pub open spec fn views_of_excels(rs: Seq<CompanyExcel>) -> Seq<CompanyExcelV> {
    rs.map_values(|r: CompanyExcel| r@)
}

/// Flattens one persisted record into its spreadsheet line.
pub fn map_to_excel(company: &Company) -> (r: CompanyExcel)
    requires
        company_wf(company@),
    ensures
        r@ == excel_of(company@),
{
    let begin = company.remainder_begin_month;
    let end = company.remainder_end_month;
    CompanyExcel {
        id: company.id,
        name: company.name.clone(),
        remainder_begin_month_debit: if begin.is_debit_side() {
            Some(begin)
        } else {
            None
        },
        remainder_begin_month_credit: if begin.is_debit_side() {
            None
        } else {
            Some(begin.magnitude())
        },
        debit_turnover: company.debit_turnover,
        credit_turnover: company.credit_turnover,
        remainder_end_month_debit: if end.is_debit_side() {
            Some(end)
        } else {
            None
        },
        remainder_end_month_credit: if end.is_debit_side() {
            None
        } else {
            Some(end.magnitude())
        },
    }
}

/// Flattens the persisted rows of the table into spreadsheet lines, in
/// row order; staged rows and the total are never exported.
pub fn rows_to_excel(rows: &Vec<Row>) -> (out: Vec<CompanyExcel>)
    requires
        rows_wf(views_of_rows(rows@)),
    ensures
        views_of_excels(out@) == constants_of(views_of_rows(rows@)).map_values(excel_fn()),
{
    let ghost rvs = views_of_rows(rows@);
    let ghost f = constant_company_fn();
    let mut out: Vec<CompanyExcel> = Vec::new();
    let mut i: usize = 0;
    proof {
        assert(rvs.take(0) =~= Seq::<RowV>::empty());
        assert(views_of_excels(out@) =~= rvs.take(0).filter_map(f).map_values(excel_fn()));
    }
    while i < rows.len()
        invariant
            i <= rows@.len(),
            rvs == views_of_rows(rows@),
            rows_wf(rvs),
            f == constant_company_fn(),
            views_of_excels(out@) == rvs.take(i as int).filter_map(f).map_values(excel_fn()),
        decreases rows@.len() - i,
    {
        proof {
            lemma_filter_map_step(rvs, f, i as int);
            assert(rvs[i as int] == rows@[i as int]@);
        }
        match &rows[i] {
            Row::Constant(c) => {
                proof {
                    assert(rvs[i as int] == RowV::Constant(c@));
                    assert(company_wf(c@));
                }
                let line = map_to_excel(c);
                out.push(line);
                proof {
                    assert(f(rvs[i as int]) == Some(c@));
                    assert(views_of_excels(out@) =~= rvs.take(i as int).filter_map(f).map_values(
                        excel_fn(),
                    ).push(excel_of(c@)));
                    assert(rvs.take(i + 1).filter_map(f).map_values(excel_fn()) =~= rvs.take(
                        i as int,
                    ).filter_map(f).map_values(excel_fn()).push(excel_of(c@)));
                }
            },
            _ => {
                proof {
                    assert(f(rvs[i as int]) is None);
                }
            },
        }
        i = i + 1;
    }
    proof {
        assert(rvs.take(rvs.len() as int) =~= rvs);
    }
    out
}

/// PDF export is not offered: no document is ever produced.
pub fn export_to_pdf() -> (r: Option<Vec<u8>>)
    ensures
        r is None,
{
    None
}

} // verus!
