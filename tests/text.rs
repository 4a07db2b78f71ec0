use minesweeper_solver::{decode_instruction, grid_to_string, try_to_solve, InstructionError};

#[test]
fn grid_text_rows_and_columns() {
    assert_eq!(grid_to_string(&[1, 2, 3, 4, 10, 255], 2), "1 2\n3 4\n10 255");
    assert_eq!(grid_to_string(&[1, 2, 3, 4, 10, 255], 4), "1 2 3 4\n10 255");
    assert_eq!(grid_to_string(&[0, 9, 100], 1), "0\n9\n100");
    assert_eq!(grid_to_string(&[], 3), "");
}

#[test]
fn decode_rejects_short_or_oversized_data() {
    let bad = Err(InstructionError::InvalidInstructionData);
    assert_eq!(decode_instruction(&[]).map(|r| r.width), bad);
    assert_eq!(decode_instruction(&[1]).map(|r| r.width), bad);
    assert_eq!(decode_instruction(&[11, 1, 0, 0, 0, 0, 0, 0, 0, 0, 0, 0, 0]).map(|r| r.width), bad);
    assert_eq!(decode_instruction(&[1, 11, 0, 0, 0, 0, 0, 0, 0, 0, 0, 0, 0]).map(|r| r.width), bad);
    assert_eq!(decode_instruction(&[2, 2, 0, 0, 0]).map(|r| r.width), bad);
    assert_eq!(decode_instruction(&[0, 0]).map(|r| r.width), bad);
    assert_eq!(decode_instruction(&[0, 1, 0]).map(|r| r.width), bad);
    assert_eq!(decode_instruction(&[1, 0, 0]).map(|r| r.width), bad);
}

#[test]
fn decode_reads_dimensions_and_cells() {
    let r = decode_instruction(&[1, 2, 0, 9]).unwrap();
    assert_eq!((r.width, r.height), (1, 2));
    assert_eq!(r.grid, vec![0, 9]);

    // Bytes past the board are not part of it.
    let r = decode_instruction(&[1, 2, 0, 9, 7]).unwrap();
    assert_eq!(r.grid, vec![0, 9]);

    let r = decode_instruction(&[1, 1, 0, 5]).unwrap();
    assert_eq!(r.grid, vec![0]);
    assert_eq!(try_to_solve(&r.grid, r.width, r.height), Some(vec![0]));
}

#[test]
fn decode_sample_request() {
    let data = [
        5, 5, 1, 2, 9, 1, 0, 2, 10, 2, 1, 0, 9, 2, 1, 0, 0, 1, 1, 0, 0, 0, 0, 0, 0, 0, 0,
    ];
    let r = decode_instruction(&data).unwrap();
    assert_eq!((r.width, r.height, r.grid.len()), (5, 5, 25));
    assert_eq!(grid_to_string(&r.grid, r.width).lines().count(), 5);
    let expected = vec![
        1, 2, 10, 1, 0, 2, 10, 2, 1, 0, 10, 2, 1, 0, 0, 1, 1, 0, 0, 0, 0, 0, 0, 0, 0,
    ];
    assert_eq!(try_to_solve(&r.grid, r.width, r.height), Some(expected));
}
