use conway::{Grid, GridError};

fn grid(text: &str) -> Grid {
    match Grid::from_text(text) {
        Ok(g) => g,
        Err(e) => panic!("could not read grid: {:?}", e),
    }
}

#[test]
fn new_grid_has_requested_dimensions() {
    let g = Grid::new(4, 7);
    assert_eq!(g.rows(), 4);
    assert_eq!(g.cols(), 7);
    assert!(!g.paused());
    let text = g.to_text();
    assert_eq!(text.lines().count(), 4);
    assert!(text.lines().all(|l| l.len() == 7));
}

#[test]
fn new_grid_snapshot_is_initial_state() {
    let mut g = Grid::new(5, 5);
    let initial = g.to_text();
    g.update_grid();
    g.update_grid();
    g.load_state();
    assert_eq!(g.to_text(), initial);
}

#[test]
fn restart_keeps_dimensions() {
    let mut g = Grid::new(3, 6);
    g.restart();
    assert_eq!(g.rows(), 3);
    assert_eq!(g.cols(), 6);
    let text = g.to_text();
    assert_eq!(text.lines().count(), 3);
    assert!(text.lines().all(|l| l.len() == 6));
}

#[test]
fn neighbor_counts_on_full_grid() {
    let g = grid("111\n111\n111\n");
    assert_eq!(g.count_neighbors(1, 1), 8);
    assert_eq!(g.count_neighbors(0, 0), 3);
    assert_eq!(g.count_neighbors(0, 2), 3);
    assert_eq!(g.count_neighbors(2, 0), 3);
    assert_eq!(g.count_neighbors(2, 2), 3);
    assert_eq!(g.count_neighbors(0, 1), 5);
    assert_eq!(g.count_neighbors(1, 0), 5);
    assert_eq!(g.count_neighbors(2, 1), 5);
    assert_eq!(g.count_neighbors(1, 2), 5);
}

#[test]
fn neighbor_count_excludes_center() {
    let g = grid("000\n010\n000");
    assert_eq!(g.count_neighbors(1, 1), 0);
    assert_eq!(g.count_neighbors(0, 0), 1);
    assert_eq!(g.count_neighbors(2, 2), 1);
}

#[test]
fn neighbor_count_single_cell() {
    let g = grid("1");
    assert_eq!(g.count_neighbors(0, 0), 0);
}

#[test]
fn neighbor_count_does_not_wrap() {
    let g = grid("1001\n0000\n1001");
    assert_eq!(g.count_neighbors(1, 0), 2);
    assert_eq!(g.count_neighbors(0, 1), 1);
    assert_eq!(g.count_neighbors(1, 1), 2);
}

#[test]
fn step_is_deterministic() {
    let text = "0110\n1011\n0100\n1110\n";
    let mut a = grid(text);
    let mut b = grid(text);
    a.update_grid();
    b.update_grid();
    assert_eq!(a.to_text(), b.to_text());
    a.update_grid();
    b.update_grid();
    assert_eq!(a.to_text(), b.to_text());
}

#[test]
fn live_cell_with_two_or_three_neighbors_survives() {
    let mut g = grid("110\n010\n000");
    g.update_grid();
    assert!(g.is_alive(1, 1));
    let mut g = grid("110\n110\n000");
    g.update_grid();
    assert!(g.is_alive(1, 1));
}

#[test]
fn live_cell_with_few_or_many_neighbors_dies() {
    let mut g = grid("100\n010\n000");
    g.update_grid();
    assert!(!g.is_alive(1, 1));
    let mut g = grid("111\n110\n000");
    g.update_grid();
    assert!(!g.is_alive(1, 1));
    let mut g = grid("111\n111\n111");
    g.update_grid();
    assert!(!g.is_alive(1, 1));
}

#[test]
fn dead_cell_with_three_neighbors_is_born() {
    let mut g = grid("110\n000\n010");
    g.update_grid();
    assert!(g.is_alive(1, 1));
    let mut g = grid("110\n000\n000");
    g.update_grid();
    assert!(!g.is_alive(1, 1));
    let mut g = grid("111\n001\n000");
    g.update_grid();
    assert!(!g.is_alive(1, 1));
}

#[test]
fn isolated_cell_dies() {
    let mut g = grid("000\n010\n000\n");
    g.update_grid();
    assert_eq!(g.to_text(), "000\n000\n000\n");
}

#[test]
fn blinker_oscillates() {
    let mut g = grid("000\n111\n000\n");
    g.update_grid();
    assert_eq!(g.to_text(), "010\n010\n010\n");
    g.update_grid();
    assert_eq!(g.to_text(), "000\n111\n000\n");
}

#[test]
fn block_is_still() {
    let mut g = grid("0000\n0110\n0110\n0000\n");
    g.update_grid();
    assert_eq!(g.to_text(), "0000\n0110\n0110\n0000\n");
}

#[test]
fn text_round_trip() {
    let text = "0101\n1100\n0011\n";
    let g = grid(text);
    assert_eq!(g.to_text(), text);
    let again = grid(&g.to_text());
    assert_eq!(again.to_text(), text);
    assert_eq!(again.rows(), 3);
    assert_eq!(again.cols(), 4);
}

#[test]
fn random_grid_round_trip() {
    let g = Grid::new(6, 9);
    let text = g.to_text();
    let again = grid(&text);
    assert_eq!(again.to_text(), text);
}

#[test]
fn to_text_exact() {
    let g = grid("10\n01");
    assert_eq!(g.to_text(), "10\n01\n");
}

#[test]
fn snapshot_restores_after_step() {
    let mut g = grid("000\n111\n000");
    g.save_state();
    g.update_grid();
    assert_eq!(g.to_text(), "010\n010\n010\n");
    g.load_state();
    assert_eq!(g.to_text(), "000\n111\n000\n");
}

#[test]
fn snapshot_overwritten_by_later_save() {
    let mut g = grid("000\n111\n000");
    g.update_grid();
    g.save_state();
    g.update_grid();
    g.load_state();
    assert_eq!(g.to_text(), "010\n010\n010\n");
}

#[test]
fn load_without_save_restores_loaded_state() {
    let mut g = grid("000\n111\n000");
    g.update_grid();
    g.load_state();
    assert_eq!(g.to_text(), "000\n111\n000\n");
}

#[test]
fn inconsistent_width_is_rejected() {
    assert!(matches!(Grid::from_text("010\n01"), Err(GridError::InconsistentWidth)));
    assert!(matches!(Grid::from_text("01\n010\n"), Err(GridError::InconsistentWidth)));
}

#[test]
fn invalid_character_is_rejected() {
    assert!(matches!(Grid::from_text("012"), Err(GridError::Parse('2'))));
    assert!(matches!(Grid::from_text("01\n0x"), Err(GridError::Parse('x'))));
}

#[test]
fn first_faulty_line_decides_error() {
    assert!(matches!(Grid::from_text("012\n01"), Err(GridError::Parse('2'))));
    assert!(matches!(Grid::from_text("01\n0\n0a"), Err(GridError::InconsistentWidth)));
    assert!(matches!(Grid::from_text("01\n0a\n0"), Err(GridError::Parse('a'))));
}

#[test]
fn trailing_newline_is_optional() {
    let a = grid("01\n10");
    let b = grid("01\n10\n");
    assert_eq!(a.rows(), 2);
    assert_eq!(b.rows(), 2);
    assert_eq!(a.to_text(), b.to_text());
}

#[test]
fn crlf_lines_are_accepted() {
    let g = grid("01\r\n10\r\n");
    assert_eq!(g.rows(), 2);
    assert_eq!(g.cols(), 2);
    assert_eq!(g.to_text(), "01\n10\n");
}

#[test]
fn empty_text_gives_empty_grid() {
    let g = grid("");
    assert_eq!(g.rows(), 0);
    assert_eq!(g.cols(), 0);
    assert_eq!(g.to_text(), "");
}

#[test]
fn parsed_grid_starts_running() {
    let g = grid("1");
    assert!(!g.paused());
    assert!(g.is_alive(0, 0));
    assert!(!g.is_alive(0, 1));
    assert!(!g.is_alive(1, 0));
}

#[test]
fn restart_with_lays_draws_out_row_by_row() {
    let mut g = grid("000\n000");
    g.save_state();
    g.toggle_pause();
    g.restart_with(&vec![true, false, false, true, true, false]);
    assert_eq!(g.to_text(), "100\n110\n");
    assert!(g.paused());
    assert_eq!(g.rows(), 2);
    assert_eq!(g.cols(), 3);
    g.load_state();
    assert_eq!(g.to_text(), "000\n000\n");
}

#[test]
fn display_row_uses_blocks_and_spaces() {
    let g = grid("101\n010");
    assert_eq!(g.display_row(0), "\u{2588} \u{2588}");
    assert_eq!(g.display_row(1), " \u{2588} ");
}
