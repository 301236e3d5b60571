use chama::grid::{Grid, GridLine};
use chama::history::History;
use chama::style::Axis;

#[test]
fn the_default_grid_has_ten_main_lines_per_axis() {
    let grid = Grid::default();
    assert_eq!(grid.offset(), 200);
    assert_eq!(grid.subdivisions(), 4);
    let lines = grid.lines();
    assert_eq!(lines.len(), 100);
    assert_eq!(lines[0], GridLine { axis: Axis::X, position: 0, major: false });
    assert_eq!(lines[1], GridLine { axis: Axis::X, position: 50, major: false });
    assert_eq!(lines[3], GridLine { axis: Axis::X, position: 150, major: false });
    assert_eq!(lines[4], GridLine { axis: Axis::X, position: 0, major: true });
    assert_eq!(lines[5], GridLine { axis: Axis::X, position: 200, major: false });
    assert_eq!(lines[49], GridLine { axis: Axis::X, position: 1800, major: true });
    assert_eq!(lines[50], GridLine { axis: Axis::Y, position: 0, major: false });
    assert_eq!(lines[99], GridLine { axis: Axis::Y, position: 1800, major: true });
}

#[test]
fn subdivisions_are_rounded_up() {
    let mut grid = Grid::default();
    grid.set_offset(300);
    grid.set_subdivisions(7);
    let lines = grid.lines();
    // ceil(2000 / 300) = 7 main lines, 8 lines per main line, on two axes.
    assert_eq!(lines.len(), 112);
    // ceil(300 / 7) = 43 pixels between subdivision lines.
    assert_eq!(lines[1].position, 43);
    assert_eq!(lines[6].position, 258);
    assert_eq!(lines[7], GridLine { axis: Axis::X, position: 0, major: true });
    assert_eq!(lines[8].position, 300);
}

#[test]
fn a_grid_without_offset_draws_nothing() {
    let mut grid = Grid::default();
    grid.set_offset(0);
    assert!(grid.lines().is_empty());
    grid.set_offset(2000);
    grid.set_subdivisions(0);
    assert_eq!(grid.lines(), vec![
        GridLine { axis: Axis::X, position: 0, major: true },
        GridLine { axis: Axis::Y, position: 0, major: true },
    ]);
}

#[test]
fn redo_moves_the_last_undone_action_to_the_undo_stack() {
    let mut history: History<u32> = History::new();
    history.push_redo(1);
    history.push_redo(2);
    assert_eq!(history.redo(), Some(2));
    assert_eq!(history.undo_len(), 1);
    assert_eq!(history.redo_len(), 1);
    let ctrl_y = vec!["Control".to_string(), "y".to_string()];
    assert_eq!(history.shortkey_pressed(&ctrl_y), Some(1));
    assert_eq!(history.shortkey_pressed(&ctrl_y), None);
    assert_eq!(history.undo_len(), 2);
    let ctrl_z = vec!["Control".to_string(), "z".to_string()];
    history.push_redo(3);
    assert_eq!(history.shortkey_pressed(&ctrl_z), None);
    assert_eq!(history.redo_len(), 1);
    history.clear_redo();
    assert_eq!(history.redo(), None);
    history.push_undo(4);
    assert_eq!(history.undo_len(), 3);
}
