use company_calc::model::Company;
use company_calc::money::Money;
use company_calc::protocol::Operation;
use company_calc::protocol::StoreError;
use company_calc::rows::Row;
use company_calc::rows::ValidationError;
use company_calc::state::Mode;
use company_calc::state::State;
use company_calc::total::TotalRow;

fn company(id: i64, begin: i64, debit: i64, credit: i64, end: i64) -> Company {
    Company {
        id,
        name: format!("company {id}"),
        remainder_begin_month: Money { cents: begin },
        debit_turnover: Money { cents: debit },
        credit_turnover: Money { cents: credit },
        remainder_end_month: Money { cents: end },
    }
}

fn constant_ids(state: &State) -> Vec<i64> {
    state
        .rows
        .iter()
        .filter_map(|r| match r {
            Row::Constant(c) => Some(c.id),
            _ => None,
        })
        .collect()
}

#[test]
fn initial_state_asks_for_fetch_and_total() {
    let state = State::default();
    assert!(state.rows.is_empty());
    assert!(matches!(state.mode, Mode::Normal));
    assert!(state.need_to_fetch);
    assert!(state.need_to_calculate_total);
    assert!(state.selected_rows.is_empty());
}

#[test]
fn fetch_replaces_rows_and_closes_stale_selection() {
    let mut state = State::default();
    state.apply_operation(Operation::FetchAll {
        all_companies: Ok(vec![company(1, 100, 0, 0, 100), company(2, -50, 0, 0, -50)]),
    });
    state.toggle_selection(1);
    state.toggle_selection(2);
    // A fresh fetch no longer holds id 2: only id 1 stays selected.
    state.apply_operation(Operation::FetchAll { all_companies: Ok(vec![company(1, 100, 0, 0, 100)]) });
    assert_eq!(constant_ids(&state), vec![1]);
    assert_eq!(state.selected_rows, vec![1]);
    assert!(state.need_to_calculate_total);
}

#[test]
fn failed_fetch_keeps_rows_and_surfaces_error() {
    let mut state = State::default();
    state.apply_operation(Operation::FetchAll { all_companies: Ok(vec![company(7, 1, 2, 3, 4)]) });
    let err = state.apply_operation(Operation::FetchAll {
        all_companies: Err(StoreError { message: "store unreachable".to_string() }),
    });
    assert_eq!(err.unwrap().message, "store unreachable");
    assert_eq!(constant_ids(&state), vec![7]);
}

#[test]
fn add_result_drops_staged_rows_and_appends() {
    let mut state = State::default();
    state.apply_operation(Operation::FetchAll { all_companies: Ok(vec![company(1, 0, 0, 0, 0)]) });
    state.apply_operation(Operation::Total { total: TotalRow::default() });
    state.add_row();
    assert!(matches!(state.mode, Mode::Add));
    // The staged row was inserted before the total row.
    assert!(matches!(state.rows.last(), Some(Row::Total(_))));
    state.apply_operation(Operation::Add { new_companies: vec![company(2, 5, 0, 0, 5)] });
    assert_eq!(constant_ids(&state), vec![1, 2]);
    assert!(state.rows.iter().all(|r| matches!(r, Row::Constant(_))));
    assert!(state.need_to_calculate_total);
}

#[test]
fn delete_result_removes_rows_and_selection() {
    // One persisted company; deleting it empties rows, selection and total.
    let mut state = State::default();
    state.apply_operation(Operation::FetchAll {
        all_companies: Ok(vec![company(1, 10000, 5000, 0, 10000)]),
    });
    state.toggle_selection(1);
    let batch = state.delete_selected();
    assert_eq!(batch, vec![1]);
    state.apply_operation(Operation::Delete { deleted_companies: batch });
    assert_eq!(constant_ids(&state), Vec::<i64>::new());
    assert!(state.selected_rows.is_empty());
    assert_eq!(state.calculate_total(), TotalRow::default());
}

#[test]
fn edit_acknowledgement_schedules_fetch() {
    let mut state = State::default();
    state.need_to_fetch = false;
    state.apply_operation(Operation::Edit);
    assert!(state.need_to_fetch);
}

#[test]
fn total_result_replaces_the_total_row() {
    let mut state = State::default();
    state.apply_operation(Operation::FetchAll { all_companies: Ok(vec![company(1, 1, 1, 1, 1)]) });
    let t1 = state.calculate_total();
    state.apply_operation(Operation::Total { total: t1 });
    state.apply_operation(Operation::Total { total: t1 });
    let totals = state
        .rows
        .iter()
        .filter(|r| matches!(r, Row::Total(_)))
        .count();
    assert_eq!(totals, 1);
    assert!(matches!(state.rows.last(), Some(Row::Total(_))));
}

#[test]
fn edit_seeds_selected_rows_from_values() {
    let mut state = State::default();
    state.apply_operation(Operation::FetchAll {
        all_companies: Ok(vec![company(1, 10050, 700, 0, 10050), company(2, -2500, 0, 0, -2500)]),
    });
    state.toggle_selection(1);
    state.toggle_selection(2);
    state.edit_selected_rows();
    assert!(matches!(state.mode, Mode::Edit));
    match &state.rows[0] {
        Row::BeingEdited(r) => {
            assert_eq!(r.id, 1);
            assert_eq!(r.remainder_begin_month_pos, "100.5");
            assert_eq!(r.remainder_begin_month_neg, "");
            assert_eq!(r.debit_turnover, "7");
            assert_eq!(r.credit_turnover, "0");
        }
        other => panic!("row 0 not staged for edit: {other:?}"),
    }
    match &state.rows[1] {
        Row::BeingEdited(r) => {
            assert_eq!(r.remainder_begin_month_pos, "");
            assert_eq!(r.remainder_begin_month_neg, "25");
        }
        other => panic!("row 1 not staged for edit: {other:?}"),
    }
}

#[test]
fn save_keeps_and_flags_invalid_rows() {
    // One valid and one invalid staged row: the valid one is submitted,
    // the invalid one stays staged and flagged, and the mode stays Add.
    let mut state = State::default();
    state.add_row();
    state.add_row();
    if let Row::New(r) = &mut state.rows[0] {
        r.name = "Acme".to_string();
        r.remainder_begin_month_pos = "100".to_string();
        r.debit_turnover = "10".to_string();
        r.credit_turnover = "0".to_string();
    }
    if let Row::New(r) = &mut state.rows[1] {
        r.name = "Broken".to_string();
        r.remainder_begin_month_pos = "oops".to_string();
        r.debit_turnover = "1".to_string();
        r.credit_turnover = "1".to_string();
    }
    let batch = state.save_new_rows();
    assert_eq!(batch.len(), 1);
    assert_eq!(batch[0].name, "Acme");
    assert_eq!(batch[0].remainder_begin_month, Money { cents: 10000 });
    assert!(matches!(state.mode, Mode::Add));
    match &state.rows[0] {
        Row::New(r) => assert_eq!(r.error, None),
        other => panic!("valid row gone: {other:?}"),
    }
    match &state.rows[1] {
        Row::New(r) => assert_eq!(r.error, Some(ValidationError::InvalidNumber)),
        other => panic!("invalid row gone: {other:?}"),
    }
}

#[test]
fn save_of_all_valid_rows_returns_to_normal() {
    let mut state = State::default();
    state.add_row();
    if let Row::New(r) = &mut state.rows[0] {
        r.name = "Acme".to_string();
        r.remainder_begin_month_pos = "1".to_string();
        r.debit_turnover = "0".to_string();
        r.credit_turnover = "0".to_string();
    }
    let batch = state.save_new_rows();
    assert_eq!(batch.len(), 1);
    assert!(matches!(state.mode, Mode::Normal));
}

#[test]
fn cancel_of_add_drops_staged_rows() {
    let mut state = State::default();
    state.apply_operation(Operation::FetchAll { all_companies: Ok(vec![company(1, 0, 0, 0, 0)]) });
    state.apply_operation(Operation::Total { total: TotalRow::default() });
    state.add_row();
    state.cancel();
    assert!(matches!(state.mode, Mode::Normal));
    assert_eq!(state.rows.len(), 2);
    assert!(matches!(state.rows[0], Row::Constant(_)));
    assert!(matches!(state.rows[1], Row::Total(_)));
}

#[test]
fn cancel_of_edit_schedules_fetch() {
    let mut state = State::default();
    state.apply_operation(Operation::FetchAll { all_companies: Ok(vec![company(1, 0, 0, 0, 0)]) });
    state.need_to_fetch = false;
    state.toggle_selection(1);
    state.edit_selected_rows();
    state.cancel();
    assert!(matches!(state.mode, Mode::Normal));
    assert!(state.need_to_fetch);
}

#[test]
fn toggle_selection_adds_and_removes() {
    let mut state = State::default();
    state.toggle_selection(4);
    state.toggle_selection(9);
    assert_eq!(state.selected_rows, vec![4, 9]);
    state.toggle_selection(4);
    assert_eq!(state.selected_rows, vec![9]);
}

#[test]
fn fetch_is_idempotent() {
    // Folding the same fetch result twice leaves the same rows, selection
    // and aggregate as folding it once.
    let rows = vec![company(1, 100, 10, 0, 100), company(2, -40, 0, 5, -45)];
    let mut once = State::default();
    once.toggle_selection(1);
    once.apply_operation(Operation::FetchAll { all_companies: Ok(rows.clone()) });
    let mut twice = State::default();
    twice.toggle_selection(1);
    twice.apply_operation(Operation::FetchAll { all_companies: Ok(rows.clone()) });
    twice.apply_operation(Operation::FetchAll { all_companies: Ok(rows) });
    assert_eq!(constant_ids(&once), constant_ids(&twice));
    assert_eq!(once.selected_rows, twice.selected_rows);
    assert_eq!(once.calculate_total(), twice.calculate_total());
}

#[test]
fn messages_apply_in_receipt_order() {
    // A fetch, then an add result, then a second fetch: the add keeps only
    // persisted rows and appends; the later fetch replaces everything.
    let mut state = State::default();
    state.apply_operation(Operation::FetchAll { all_companies: Ok(vec![company(1, 0, 0, 0, 0)]) });
    state.add_row();
    state.apply_operation(Operation::Add { new_companies: vec![company(2, 0, 0, 0, 0)] });
    assert_eq!(constant_ids(&state), vec![1, 2]);
    state.apply_operation(Operation::FetchAll {
        all_companies: Ok(vec![company(3, 0, 0, 0, 0)]),
    });
    assert_eq!(constant_ids(&state), vec![3]);
    assert_eq!(state.rows.len(), 1);
}

#[test]
fn untouched_edit_saves_the_same_values() {
    // Seeding an edit row and saving it unchanged round-trips the values.
    let mut state = State::default();
    state.apply_operation(Operation::FetchAll {
        all_companies: Ok(vec![company(1, 10050, 700, 25, 10025), company(2, -33, 0, 0, -33)]),
    });
    state.toggle_selection(1);
    state.toggle_selection(2);
    state.edit_selected_rows();
    let batch = state.save_edited_rows();
    assert_eq!(batch.len(), 2);
    assert_eq!(batch[0].id, 1);
    assert_eq!(batch[0].remainder_begin_month, Money { cents: 10050 });
    assert_eq!(batch[0].debit_turnover, Money { cents: 700 });
    assert_eq!(batch[0].credit_turnover, Money { cents: 25 });
    assert_eq!(batch[1].id, 2);
    assert_eq!(batch[1].remainder_begin_month, Money { cents: -33 });
    assert!(matches!(state.mode, Mode::Normal));
}
