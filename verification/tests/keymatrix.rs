use keebifa::keymatrix::{Matrix, PinOp, PinOutcome, ScanError};

fn healthy(levels: &[[bool; 3]; 2]) -> Vec<PinOutcome> {
    let mut record = Vec::new();
    for row in levels {
        record.push(PinOutcome::Driven);
        for level in row {
            record.push(PinOutcome::Level(*level));
        }
        record.push(PinOutcome::Driven);
    }
    record
}

#[test]
fn clear_releases_every_row() {
    let matrix = Matrix::new(3, 2);
    assert_eq!(matrix.cols(), 3);
    assert_eq!(matrix.rows(), 2);
    assert_eq!(matrix.clear(), vec![PinOp::Release(0), PinOp::Release(1)]);
    assert_eq!(Matrix::new(4, 0).clear(), Vec::new());
}

#[test]
fn strobe_selects_one_row_at_a_time() {
    let matrix = Matrix::new(3, 2);
    assert_eq!(
        matrix.strobe(),
        vec![
            PinOp::Select(0),
            PinOp::Sample(0),
            PinOp::Sample(1),
            PinOp::Sample(2),
            PinOp::Release(0),
            PinOp::Select(1),
            PinOp::Sample(0),
            PinOp::Sample(1),
            PinOp::Sample(2),
            PinOp::Release(1),
        ]
    );
}

#[test]
fn at_every_sample_exactly_one_row_is_selected() {
    let matrix = Matrix::new(13, 5);
    let mut selected: Vec<usize> = Vec::new();
    let mut samples = 0;
    for op in matrix.strobe() {
        match op {
            PinOp::Select(row) => selected.push(row),
            PinOp::Release(row) => selected.retain(|r| *r != row),
            PinOp::Sample(_) => {
                assert_eq!(selected.len(), 1);
                samples += 1;
            }
        }
    }
    assert!(selected.is_empty());
    assert_eq!(samples, 65);
}

#[test]
fn strobe_of_a_matrix_without_columns_still_drives_the_rows() {
    assert_eq!(
        Matrix::new(0, 2).strobe(),
        vec![PinOp::Select(0), PinOp::Release(0), PinOp::Select(1), PinOp::Release(1)]
    );
    assert_eq!(Matrix::new(3, 0).strobe(), Vec::new());
}

#[test]
fn get_reads_the_grid_by_row_and_column() {
    let matrix = Matrix::new(3, 2);
    let levels = [[false, true, false], [true, false, true]];
    assert_eq!(
        matrix.get(&healthy(&levels)),
        Ok(vec![vec![false, true, false], vec![true, false, true]])
    );
}

#[test]
fn get_gives_no_grid_after_a_fault() {
    let matrix = Matrix::new(3, 2);
    let mut record = healthy(&[[true; 3]; 2]);
    record.truncate(4);
    record[3] = PinOutcome::Fault;
    assert_eq!(matrix.get(&record), Err(ScanError::Fault));
    assert_eq!(matrix.get(&vec![PinOutcome::Fault]), Err(ScanError::Fault));
    let mut at_release = healthy(&[[true; 3]; 2]);
    at_release.truncate(10);
    at_release[9] = PinOutcome::Fault;
    assert_eq!(matrix.get(&at_release), Err(ScanError::Fault));
}

#[test]
fn get_refuses_a_record_that_is_not_one_whole_scan() {
    let matrix = Matrix::new(3, 2);
    let whole = healthy(&[[false; 3]; 2]);
    assert_eq!(matrix.get(&Vec::new()), Err(ScanError::Incomplete));
    assert_eq!(matrix.get(&whole[..9].to_vec()), Err(ScanError::Incomplete));
    let mut longer = whole.clone();
    longer.push(PinOutcome::Driven);
    assert_eq!(matrix.get(&longer), Err(ScanError::Incomplete));
    let mut wrong_kind = whole.clone();
    wrong_kind[1] = PinOutcome::Driven;
    assert_eq!(matrix.get(&wrong_kind), Err(ScanError::Incomplete));
    let mut level_for_drive = whole.clone();
    level_for_drive[0] = PinOutcome::Level(true);
    assert_eq!(matrix.get(&level_for_drive), Err(ScanError::Incomplete));
    let mut fault_after_mismatch = whole;
    fault_after_mismatch[1] = PinOutcome::Driven;
    fault_after_mismatch[2] = PinOutcome::Fault;
    assert_eq!(matrix.get(&fault_after_mismatch), Err(ScanError::Incomplete));
}

#[test]
fn get_of_an_empty_matrix_is_an_empty_grid() {
    assert_eq!(Matrix::new(3, 0).get(&Vec::new()), Ok(Vec::new()));
    assert_eq!(
        Matrix::new(0, 1).get(&vec![PinOutcome::Driven, PinOutcome::Driven]),
        Ok(vec![Vec::new()])
    );
}
