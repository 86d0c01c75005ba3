use std::collections::HashMap;
use std::f64::consts::PI as pi;
use std::time::Duration;

use robot_sim::control::Driver;
use robot_sim::draw::{
    fill_ops, footprint_cells_fit, frame_ops, heading_char, map_ops, objects_ops, render_ops,
    robot_cells_fit, robot_ops, Color, DrawOp, Footprint,
    BACKGROUND, BLOCK, BOTTOM_LEFT, BOTTOM_RIGHT, HORIZONTAL, SMALL_MARK, TOP_LEFT, TOP_RIGHT,
    VERTICAL,
};
use robot_sim::input::{Intent, Key, KeyInput, KeyKind, Modifiers};
use robot_sim::WorldConfig;

fn screen(ops: &[DrawOp]) -> HashMap<(u16, u16), char> {
    let mut cells = HashMap::new();
    for op in ops {
        if let DrawOp::Put { col, row, ch } = *op {
            cells.insert((col, row), ch);
        }
    }
    cells
}

fn put(col: u16, row: u16, ch: char) -> DrawOp {
    DrawOp::Put { col, row, ch }
}

fn no_mods() -> Modifiers {
    Modifiers { shift: false, control: false, alt: false, super_key: false, hyper: false, meta: false }
}

fn key(kind: KeyKind, code: Key, modifiers: Modifiers) -> KeyInput {
    KeyInput { kind, code, modifiers }
}

#[test]
fn test_quantization() {
    let mut theta: f64 = pi / 2.0;

    // 1. normalize theta to fall within [0, 2pi]
    theta = theta.rem_euclid(2.0 * pi);

    // 2. quantize for 8 directions:
    let i = (theta / (2.0 * pi / 8.0)).round() as usize;
    let c = heading_char(i);

    assert!(c == '^');
}

#[test]
fn heading_wraps_every_eight_sectors() {
    let arrows = ['>', '↗', '^', '↖', '<', '↙', 'v', '↘'];
    for i in 0..8usize {
        assert_eq!(heading_char(i), arrows[i]);
        assert_eq!(heading_char(i + 8), arrows[i]);
        assert_eq!(heading_char(i + 80), arrows[i]);
    }
}

#[test]
fn world_config_steps_every_fifty_millis() {
    let config = WorldConfig::new(20, 10);
    assert_eq!(config.timestep, Duration::from_secs_f64(0.05));
    assert_eq!(config.timestep, Duration::from_millis(50));
    assert_eq!(config.width(), 20);
    assert_eq!(config.height(), 10);
}

#[test]
fn screen_and_terminal_size() {
    let config = WorldConfig::new(20, 10);
    assert_eq!(config.screen_dims(), (40, 10));
    assert_eq!(config.terminal_size(), (42, 12));
}

#[test]
fn frame_draws_edges_then_corners() {
    let ops = frame_ops(1, 0, 3, 4);
    let expected = vec![
        put(3, 4, VERTICAL),
        put(5, 4, VERTICAL),
        put(3, 5, VERTICAL),
        put(5, 5, VERTICAL),
        put(3, 4, HORIZONTAL),
        put(3, 5, HORIZONTAL),
        put(4, 4, HORIZONTAL),
        put(4, 5, HORIZONTAL),
        put(5, 4, HORIZONTAL),
        put(5, 5, HORIZONTAL),
        put(3, 4, TOP_LEFT),
        put(5, 4, TOP_RIGHT),
        put(3, 5, BOTTOM_LEFT),
        put(5, 5, BOTTOM_RIGHT),
    ];
    assert_eq!(ops, expected);
}

#[test]
fn frame_occupies_the_border_of_its_box() {
    let (w, h, x0, y0) = (4u16, 2u16, 1u16, 2u16);
    let cells = screen(&frame_ops(w, h, x0, y0));
    let (right, bottom) = (x0 + w + 1, y0 + h + 1);
    assert_eq!(cells.len(), 2 * (w as usize + 2) + 2 * (h as usize));
    assert_eq!(cells[&(x0, y0)], TOP_LEFT);
    assert_eq!(cells[&(right, y0)], TOP_RIGHT);
    assert_eq!(cells[&(x0, bottom)], BOTTOM_LEFT);
    assert_eq!(cells[&(right, bottom)], BOTTOM_RIGHT);
    for x in x0 + 1..right {
        assert_eq!(cells[&(x, y0)], HORIZONTAL);
        assert_eq!(cells[&(x, bottom)], HORIZONTAL);
    }
    for y in y0 + 1..bottom {
        assert_eq!(cells[&(x0, y)], VERTICAL);
        assert_eq!(cells[&(right, y)], VERTICAL);
    }
}

#[test]
fn fill_covers_its_rectangle_row_by_row() {
    let ops = fill_ops(2, 2, 5, 7, BLOCK);
    let expected = vec![
        put(5, 7, BLOCK),
        put(6, 7, BLOCK),
        put(5, 8, BLOCK),
        put(6, 8, BLOCK),
    ];
    assert_eq!(ops, expected);
    assert!(fill_ops(3, 0, 65535, 1, BLOCK).is_empty());
    assert!(fill_ops(0, 3, 1, 1, BLOCK).is_empty());
}

#[test]
fn map_background_fills_the_frame_interior() {
    let ops = map_ops(4, 3);
    assert_eq!(ops[0], DrawOp::SetForeground(Color::DarkGrey));
    let frame_len = 2 * (3 + 2) + 2 * (4 + 2) + 4;
    assert_eq!(ops[1 + frame_len], DrawOp::ResetColor);
    assert_eq!(ops.len(), 1 + frame_len + 1 + 4 * 3);
    let cells = screen(&ops);
    for col in 0..=5u16 {
        for row in 0..=4u16 {
            let inside = (1..=4).contains(&col) && (1..=3).contains(&row);
            let border = col == 0 || col == 5 || row == 0 || row == 4;
            if inside {
                assert_eq!(cells[&(col, row)], BACKGROUND);
            } else {
                assert!(border);
                assert!(cells.contains_key(&(col, row)));
            }
        }
    }
    assert_eq!(cells.len(), 6 * 5);
}

#[test]
fn robot_body_and_heading_arrow() {
    // a 2 by 2 unit robot at cell (11, 16), heading north
    let ops = robot_ops(11, 16, 2, 2, 2);
    assert_eq!(ops[0], DrawOp::SetForeground(Color::Blue));
    assert_eq!(ops.len(), 1 + 4 * 2 + 1);
    assert_eq!(*ops.last().unwrap(), put(11 + 2, 16 + 1, '^'));
    let cells = screen(&ops);
    assert_eq!(cells.len(), 4 * 2);
    for col in 11..15u16 {
        for row in 16..18u16 {
            let expected = if (col, row) == (13, 17) { '^' } else { BLOCK };
            assert_eq!(cells[&(col, row)], expected);
        }
    }
}

#[test]
fn robot_in_the_top_left_corner() {
    let ops = robot_ops(0, 0, 1, 1, 0);
    assert_eq!(
        ops,
        vec![DrawOp::SetForeground(Color::Blue), put(0, 0, BLOCK), put(1, 0, BLOCK), put(1, 0, '>')]
    );
    assert!(robot_cells_fit(0, 0, 1, 1));
    assert!(!robot_cells_fit(0, 0, 40000, 1));
    assert!(!robot_cells_fit(65535, 0, 1, 0));
    assert!(robot_cells_fit(65533, 0, 1, 0));
    assert!(!robot_cells_fit(0, 65535, 1, 1));
}

#[test]
fn robot_arrow_over_its_body() {
    let ops = robot_ops(0, 0, 4, 6, 13);
    let cells = screen(&ops);
    assert_eq!(cells[&(4, 3)], '↙');
    assert_eq!(cells.len(), 8 * 6);
}

#[test]
fn objects_fit_checks() {
    let big = Footprint { col: 65000, row: 0, width: 1000, height: 1, small: false };
    assert!(!footprint_cells_fit(&big));
    assert!(footprint_cells_fit(&Footprint { small: true, ..big }));
    assert!(footprint_cells_fit(&Footprint { height: 0, ..big }));
    assert!(footprint_cells_fit(&Footprint { col: 0, ..big }));
}

#[test]
fn render_draws_objects_over_robot_over_map() {
    let objects = vec![Footprint { col: 2, row: 2, width: 0, height: 0, small: true }];
    let ops = render_ops(6, 4, 1, 1, 2, 2, 0, &objects);
    let mut expected = map_ops(6, 4);
    expected.extend(robot_ops(1, 1, 2, 2, 0));
    expected.extend(objects_ops(&objects));
    assert_eq!(ops, expected);
    let cells = screen(&ops);
    assert_eq!(cells[&(2, 2)], SMALL_MARK);
    assert_eq!(cells[&(3, 2)], '>');
    assert_eq!(cells[&(1, 1)], BLOCK);
    assert_eq!(cells[&(5, 1)], BACKGROUND);
    assert_eq!(cells[&(0, 0)], TOP_LEFT);
}

#[test]
fn objects_small_and_large() {
    let objects = vec![
        Footprint { col: 21, row: 21, width: 2, height: 2, small: false },
        Footprint { col: 3, row: 4, width: 0, height: 0, small: true },
    ];
    let ops = objects_ops(&objects);
    let expected = vec![
        DrawOp::SetForeground(Color::Red),
        put(21, 21, BLOCK),
        put(22, 21, BLOCK),
        put(23, 21, BLOCK),
        put(24, 21, BLOCK),
        put(21, 22, BLOCK),
        put(22, 22, BLOCK),
        put(23, 22, BLOCK),
        put(24, 22, BLOCK),
        put(3, 4, SMALL_MARK),
    ];
    assert_eq!(ops, expected);
    assert_eq!(objects_ops(&vec![]), vec![DrawOp::SetForeground(Color::Red)]);
}

#[test]
fn esc_always_quits() {
    let mut ctrl = no_mods();
    ctrl.control = true;
    for kind in [KeyKind::Press, KeyKind::Repeat, KeyKind::Release] {
        assert_eq!(key(kind, Key::Esc, no_mods()).intent(), Some(Intent::Quit));
        assert_eq!(key(kind, Key::Esc, ctrl).intent(), Some(Intent::Quit));
    }
}

#[test]
fn ctrl_c_quits_and_plain_c_is_ignored() {
    let mut ctrl = no_mods();
    ctrl.control = true;
    let mut ctrl_shift = ctrl;
    ctrl_shift.shift = true;
    assert_eq!(key(KeyKind::Press, Key::Char('c'), ctrl).intent(), Some(Intent::Quit));
    assert_eq!(key(KeyKind::Release, Key::Char('C'), ctrl).intent(), Some(Intent::Quit));
    assert_eq!(key(KeyKind::Press, Key::Char('c'), no_mods()).intent(), None);
    assert_eq!(key(KeyKind::Press, Key::Char('C'), ctrl_shift).intent(), None);
    assert_eq!(key(KeyKind::Press, Key::Char('x'), ctrl).intent(), Some(Intent::Stop));
}

#[test]
fn arrows_drive_and_release_stops() {
    for kind in [KeyKind::Press, KeyKind::Repeat] {
        assert_eq!(key(kind, Key::Up, no_mods()).intent(), Some(Intent::Forward));
        assert_eq!(key(kind, Key::Down, no_mods()).intent(), Some(Intent::Backward));
        assert_eq!(key(kind, Key::Right, no_mods()).intent(), Some(Intent::TurnClockwise));
        assert_eq!(key(kind, Key::Left, no_mods()).intent(), Some(Intent::TurnCounterClockwise));
        assert_eq!(key(kind, Key::Other, no_mods()).intent(), Some(Intent::Stop));
    }
    for code in [Key::Up, Key::Down, Key::Left, Key::Right, Key::Other] {
        assert_eq!(key(KeyKind::Release, code, no_mods()).intent(), Some(Intent::Stop));
    }
}

#[test]
fn driver_keeps_intent_until_quit() {
    let mut driver = Driver::new();
    assert_eq!(driver.current, Intent::Stop);
    assert!(driver.running);
    assert!(driver.handle(Some(Intent::Forward)));
    assert_eq!(driver.current, Intent::Forward);
    assert!(driver.handle(None));
    assert_eq!(driver.current, Intent::Forward);
    assert!(!driver.handle(Some(Intent::Quit)));
    assert!(!driver.running);
    assert_eq!(driver.current, Intent::Forward);
}
