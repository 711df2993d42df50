use company_calc::exports::export_to_pdf;
use company_calc::exports::map_to_excel;
use company_calc::exports::rows_to_excel;
use company_calc::model::Company;
use company_calc::model::EditedCompany;
use company_calc::model::merge_edit;
use company_calc::money::Money;
use company_calc::money::end_remainder;
use company_calc::rows::NewCompanyRow;
use company_calc::rows::Row;
use company_calc::state::Mode;
use company_calc::total::TotalRow;
use company_calc::validate::map_to_new;

fn company(id: i64, begin: i64, debit: i64, credit: i64, end: i64) -> Company {
    Company {
        id,
        name: format!("company {id}"),
        remainder_begin_month: Money { cents: begin },
        debit_turnover: Money { cents: debit },
        credit_turnover: Money { cents: credit },
        remainder_end_month: Money { cents: end },
    }
}

#[test]
fn gateway_formula_debit_side() {
    // An added row {begin: 100, debit: 10, credit: 0} closes at 100 - 0.
    let row = NewCompanyRow {
        name: "Acme".to_string(),
        remainder_begin_month_pos: "100".to_string(),
        remainder_begin_month_neg: "".to_string(),
        debit_turnover: "10".to_string(),
        credit_turnover: "0".to_string(),
        error: None,
    };
    let c = map_to_new(&row).unwrap();
    assert_eq!(c.remainder_begin_month, Money { cents: 10000 });
    let end = end_remainder(c.remainder_begin_month, c.debit_turnover, c.credit_turnover);
    assert_eq!(end, Money { cents: 10000 });
}

#[test]
fn gateway_formula_both_sides() {
    // Debit side: begin - credit; credit side: begin + debit; zero counts
    // as debit side.
    let d = Money { cents: 700 };
    let c = Money { cents: 300 };
    assert_eq!(end_remainder(Money { cents: 1000 }, d, c), Money { cents: 700 });
    assert_eq!(end_remainder(Money { cents: -1000 }, d, c), Money { cents: -300 });
    assert_eq!(end_remainder(Money { cents: 0 }, d, c), Money { cents: -300 });
}

#[test]
fn merge_edit_keeps_closing_remainder() {
    let mut target = company(5, 100, 10, 20, 90);
    merge_edit(
        &mut target,
        EditedCompany {
            id: 5,
            name: "renamed".to_string(),
            remainder_begin_month: Money { cents: -400 },
            debit_turnover: Money { cents: 1 },
            credit_turnover: Money { cents: 2 },
        },
    );
    assert_eq!(target.id, 5);
    assert_eq!(target.name, "renamed");
    assert_eq!(target.remainder_begin_month, Money { cents: -400 });
    assert_eq!(target.debit_turnover, Money { cents: 1 });
    assert_eq!(target.credit_turnover, Money { cents: 2 });
    // The store recomputes the closing remainder; the merge leaves it.
    assert_eq!(target.remainder_end_month, Money { cents: 90 });
}

#[test]
fn excel_line_splits_remainders_by_sign() {
    let line = map_to_excel(&company(3, -2500, 100, 200, 1500));
    assert_eq!(line.id, 3);
    assert_eq!(line.remainder_begin_month_debit, None);
    assert_eq!(line.remainder_begin_month_credit, Some(Money { cents: 2500 }));
    assert_eq!(line.debit_turnover, Money { cents: 100 });
    assert_eq!(line.credit_turnover, Money { cents: 200 });
    assert_eq!(line.remainder_end_month_debit, Some(Money { cents: 1500 }));
    assert_eq!(line.remainder_end_month_credit, None);
}

#[test]
fn excel_export_takes_persisted_rows_only() {
    let rows = vec![
        Row::Constant(company(1, 0, 0, 0, 0)),
        Row::New(NewCompanyRow::default()),
        Row::Constant(company(2, 50, 0, 0, 50)),
        Row::Total(TotalRow::default()),
    ];
    let lines = rows_to_excel(&rows);
    assert_eq!(lines.len(), 2);
    assert_eq!(lines[0].id, 1);
    assert_eq!(lines[1].id, 2);
}

#[test]
fn pdf_export_yields_nothing() {
    assert!(export_to_pdf().is_none());
}

#[test]
fn constant_row_hands_out_its_company() {
    let row = Row::Constant(company(9, 1, 2, 3, 4));
    assert_eq!(row.constant().id, 9);
}

#[test]
fn mode_labels() {
    assert_eq!(Mode::Normal.label(), "Normal");
    assert_eq!(Mode::Add.label(), "Add");
    assert_eq!(Mode::Edit.label(), "Edit");
}
