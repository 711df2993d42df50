use company_calc::model::Company;
use company_calc::money::Money;
use company_calc::total::TotalRow;
use company_calc::total::aggregate;

fn company(id: i64, begin: i64, debit: i64, credit: i64, end: i64) -> Company {
    Company {
        id,
        name: format!("company {id}"),
        remainder_begin_month: Money { cents: begin },
        debit_turnover: Money { cents: debit },
        credit_turnover: Money { cents: credit },
        remainder_end_month: Money { cents: end },
    }
}

#[test]
fn aggregate_of_nothing_is_zero() {
    assert_eq!(aggregate(&Vec::new()), TotalRow::default());
}

#[test]
fn aggregate_splits_by_sign() {
    let companies = vec![
        company(1, 10000, 500, 0, 10000),
        company(2, -2500, 100, 700, -3100),
        company(3, 0, 0, 0, 0),
    ];
    let t = aggregate(&companies);
    assert_eq!(t.remainder_begin_month_pos, 10000);
    assert_eq!(t.remainder_begin_month_neg, 2500);
    assert_eq!(t.debit_turnover, 600);
    assert_eq!(t.credit_turnover, 700);
    assert_eq!(t.remainder_end_month_pos, 10000);
    assert_eq!(t.remainder_end_month_neg, 3100);
}

#[test]
fn begin_sides_recover_signed_remainder() {
    // For a single company the difference of the two begin-month columns
    // is its signed opening remainder.
    for begin in [-12345i64, -1, 0, 1, 98765] {
        let t = aggregate(&vec![company(1, begin, 5, 7, 0)]);
        assert_eq!(t.remainder_begin_month_pos - t.remainder_begin_month_neg, begin as i128);
    }
}

#[test]
fn credit_turnover_sums_credit_fields() {
    // Each company's own credit turnover lands in the credit column.
    let t = aggregate(&vec![company(1, 0, 100, 30, 0), company(2, 0, 200, 40, 0)]);
    assert_eq!(t.debit_turnover, 300);
    assert_eq!(t.credit_turnover, 70);
}

#[test]
fn aggregate_is_order_independent() {
    let one = || company(1, 10000, 500, 0, 10000);
    let two = || company(2, -2500, 100, 700, -3100);
    let three = || company(3, 7, 0, 9, -2);
    assert_eq!(
        aggregate(&vec![one(), two(), three()]),
        aggregate(&vec![three(), one(), two()])
    );
}
