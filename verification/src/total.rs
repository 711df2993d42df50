//! The aggregate total over the persisted records.
//!
//! Each company splits its opening and closing remainders by sign into a
//! debit and a credit column (zero counts as debit, matching the gateway),
//! and contributes its turnovers to their own columns. Sums are carried in
//! 128-bit cents so that they cannot overflow whatever the table holds.

use crate::model::Company;
use crate::model::CompanyV;
use crate::model::company_wf;
use crate::money::AMOUNT_LIMIT_CENTS;
use vstd::prelude::*;

verus! {

/// The aggregate row: six non-negative sums, in cents.
#[derive(Clone, Copy, PartialEq, Eq, Structural, Debug)]
pub struct TotalRow {
    pub remainder_begin_month_pos: i128,
    pub remainder_begin_month_neg: i128,
    pub debit_turnover: i128,
    pub credit_turnover: i128,
    pub remainder_end_month_pos: i128,
    pub remainder_end_month_neg: i128,
}

/// Mathematical image of the aggregate row.
#[verifier::ext_equal]
pub struct TotalV {
    pub begin_debit: int,
    pub begin_credit: int,
    pub debit_turnover: int,
    pub credit_turnover: int,
    pub end_debit: int,
    pub end_credit: int,
}

impl View for TotalRow {
    type V = TotalV;

    open spec fn view(&self) -> TotalV {
        TotalV {
            begin_debit: self.remainder_begin_month_pos as int,
            begin_credit: self.remainder_begin_month_neg as int,
            debit_turnover: self.debit_turnover as int,
            credit_turnover: self.credit_turnover as int,
            end_debit: self.remainder_end_month_pos as int,
            end_credit: self.remainder_end_month_neg as int,
        }
    }
}

/// The total over no companies.
pub open spec fn total_zero() -> TotalV {
    TotalV {
        begin_debit: 0,
        begin_credit: 0,
        debit_turnover: 0,
        credit_turnover: 0,
        end_debit: 0,
        end_credit: 0,
    }
}

impl Default for TotalRow {
    fn default() -> (r: Self)
        ensures
            r@ == total_zero(),
    {
        TotalRow {
            remainder_begin_month_pos: 0,
            remainder_begin_month_neg: 0,
            debit_turnover: 0,
            credit_turnover: 0,
            remainder_end_month_pos: 0,
            remainder_end_month_neg: 0,
        }
    }
}

/// What one company adds to the total: remainders split by sign into
/// magnitudes, turnovers taken as they are.
pub open spec fn company_contribution(c: CompanyV) -> TotalV {
    TotalV {
        begin_debit: if c.remainder_begin_month >= 0 {
            c.remainder_begin_month
        } else {
            0
        },
        begin_credit: if c.remainder_begin_month >= 0 {
            0
        } else {
            -c.remainder_begin_month
        },
        debit_turnover: c.debit_turnover,
        credit_turnover: c.credit_turnover,
        end_debit: if c.remainder_end_month >= 0 {
            c.remainder_end_month
        } else {
            0
        },
        end_credit: if c.remainder_end_month >= 0 {
            0
        } else {
            -c.remainder_end_month
        },
    }
}

/// Column-wise sum of two totals.
pub open spec fn total_add(a: TotalV, b: TotalV) -> TotalV {
    TotalV {
        begin_debit: a.begin_debit + b.begin_debit,
        begin_credit: a.begin_credit + b.begin_credit,
        debit_turnover: a.debit_turnover + b.debit_turnover,
        credit_turnover: a.credit_turnover + b.credit_turnover,
        end_debit: a.end_debit + b.end_debit,
        end_credit: a.end_credit + b.end_credit,
    }
}

/// The total over a sequence of companies.
pub open spec fn total_of(cs: Seq<CompanyV>) -> TotalV
    decreases cs.len(),
{
    if cs.len() == 0 {
        total_zero()
    } else {
        total_add(total_of(cs.drop_last()), company_contribution(cs.last()))
    }
}

/// Views of a sequence of company records.
pub open spec fn views_of_companies(cs: Seq<Company>) -> Seq<CompanyV> {
    cs.map_values(|c: Company| c@)
}

/// The begin-month debit and credit columns recover the signed sum of the
/// opening remainders: splitting by sign loses nothing.
pub open spec fn sum_begin(cs: Seq<CompanyV>) -> int
    decreases cs.len(),
{
    if cs.len() == 0 {
        0
    } else {
        sum_begin(cs.drop_last()) + cs.last().remainder_begin_month
    }
}

/// The difference of the two begin-month columns equals the signed sum of
/// the opening remainders.
pub proof fn lemma_begin_sides_recover_sum(cs: Seq<CompanyV>)
    ensures
        total_of(cs).begin_debit - total_of(cs).begin_credit == sum_begin(cs),
    decreases cs.len(),
{
    if cs.len() > 0 {
        lemma_begin_sides_recover_sum(cs.drop_last());
    }
}

/// The total over two row sets back to back is the column-wise sum of
/// their totals.
pub proof fn lemma_total_of_append(a: Seq<CompanyV>, b: Seq<CompanyV>)
    ensures
        total_of(a + b) == total_add(total_of(a), total_of(b)),
    decreases b.len(),
{
    if b.len() == 0 {
        assert(a + b =~= a);
        assert(total_add(total_of(a), total_zero()) =~= total_of(a));
    } else {
        let init = b.drop_last();
        lemma_total_of_append(a, init);
        assert((a + b).drop_last() =~= a + init);
        assert((a + b).last() == b.last());
        assert(total_add(total_add(total_of(a), total_of(init)), company_contribution(b.last()))
            =~= total_add(total_of(a), total_of(b)));
    }
}

/// Aggregation does not care in which order the companies arrive: the sum
/// is commutative across any split of the row set.
pub proof fn lemma_total_order_independent(a: Seq<CompanyV>, b: Seq<CompanyV>)
    ensures
        total_of(a + b) == total_of(b + a),
{
    lemma_total_of_append(a, b);
    lemma_total_of_append(b, a);
    assert(total_add(total_of(a), total_of(b)) =~= total_add(total_of(b), total_of(a)));
}

/// Unfolding step for the total over a prefix.
pub proof fn lemma_total_of_step(cs: Seq<CompanyV>, i: int)
    requires
        0 <= i < cs.len(),
    ensures
        total_of(cs.take(i + 1)) == total_add(total_of(cs.take(i)), company_contribution(cs[i])),
{
    assert(cs.take(i + 1).drop_last() =~= cs.take(i));
    assert(cs.take(i + 1).last() == cs[i]);
}

/// Computes the aggregate row over persisted records.
pub fn aggregate(companies: &Vec<Company>) -> (t: TotalRow)
    requires
        forall|i: int| 0 <= i < companies@.len() ==> company_wf(#[trigger] companies@[i]@),
    ensures
        t@ == total_of(views_of_companies(companies@)),
{
    let ghost views = views_of_companies(companies@);
    proof {
        assert(forall|i: int| 0 <= i < views.len() ==> #[trigger] views[i] == companies@[i]@);
    }
    let mut t = TotalRow::default();
    let mut i: usize = 0;
    proof {
        assert(views.take(0) =~= Seq::<CompanyV>::empty());
    }
    while i < companies.len()
        invariant
            i <= companies@.len(),
            views == views_of_companies(companies@),
            forall|k: int| 0 <= k < views.len() ==> company_wf(#[trigger] views[k]),
            t@ == total_of(views.take(i as int)),
            0 <= t.remainder_begin_month_pos as int <= i as int * AMOUNT_LIMIT_CENTS,
            0 <= t.remainder_begin_month_neg as int <= i as int * AMOUNT_LIMIT_CENTS,
            0 <= t.debit_turnover as int <= i as int * AMOUNT_LIMIT_CENTS,
            0 <= t.credit_turnover as int <= i as int * AMOUNT_LIMIT_CENTS,
            0 <= t.remainder_end_month_pos as int <= i as int * AMOUNT_LIMIT_CENTS,
            0 <= t.remainder_end_month_neg as int <= i as int * AMOUNT_LIMIT_CENTS,
        decreases companies@.len() - i,
    {
        let c = &companies[i];
        proof {
            lemma_total_of_step(views, i as int);
            assert(company_wf(views[i as int]));
            assert(i as int * AMOUNT_LIMIT_CENTS + AMOUNT_LIMIT_CENTS == (i + 1) as int
                * AMOUNT_LIMIT_CENTS) by (nonlinear_arith);
            assert(usize::MAX as int * AMOUNT_LIMIT_CENTS < i128::MAX) by (nonlinear_arith);
            assert(i as int * AMOUNT_LIMIT_CENTS <= usize::MAX as int * AMOUNT_LIMIT_CENTS)
                by (nonlinear_arith)
                requires
                    0 <= i as int <= usize::MAX as int,
                    AMOUNT_LIMIT_CENTS > 0,
            ;
        }
        if c.remainder_begin_month.cents >= 0 {
            t.remainder_begin_month_pos = t.remainder_begin_month_pos
                + c.remainder_begin_month.cents as i128;
        } else {
            t.remainder_begin_month_neg = t.remainder_begin_month_neg
                - c.remainder_begin_month.cents as i128;
        }
        t.debit_turnover = t.debit_turnover + c.debit_turnover.cents as i128;
        t.credit_turnover = t.credit_turnover + c.credit_turnover.cents as i128;
        if c.remainder_end_month.cents >= 0 {
            t.remainder_end_month_pos = t.remainder_end_month_pos
                + c.remainder_end_month.cents as i128;
        } else {
            t.remainder_end_month_neg = t.remainder_end_month_neg
                - c.remainder_end_month.cents as i128;
        }
        i = i + 1;
    }
    proof {
        assert(views.take(views.len() as int) =~= views);
    }
    t
}

} // verus!
