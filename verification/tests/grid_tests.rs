use game_of_life::Flower;
use game_of_life::GridError;
use game_of_life::Universe;

/// A width-by-height grid with every cell dead.
fn empty_grid(width: u32, height: u32) -> Universe {
    let mut u = Universe::try_new(width, height).unwrap();
    u.set_width(width);
    u
}

fn live_count(u: &Universe) -> usize {
    u.get_flowers().iter().filter(|f| **f == Flower::Alive).count()
}

fn flower_at(u: &Universe, row: u32, col: u32) -> Flower {
    u.get_flowers()[(row * u.width() + col) as usize]
}

#[test]
fn dimension_invariant_after_construction() {
    let u = Universe::new();
    assert_eq!(u.width(), 64);
    assert_eq!(u.height(), 64);
    assert_eq!(u.get_flowers().len(), 64 * 64);

    let v = Universe::try_new(7, 3).unwrap();
    assert_eq!(v.get_flowers().len(), 21);
}

#[test]
fn dimension_invariant_after_resize() {
    let mut u = Universe::new();
    u.set_width(10);
    assert_eq!(u.get_flowers().len(), 10 * 64);
    u.set_height(3);
    assert_eq!(u.get_flowers().len(), 10 * 3);
}

#[test]
fn default_seed_pattern() {
    let u = Universe::new();
    let cells = u.get_flowers();
    for i in 0..cells.len() {
        let expected = if i % 2 == 0 || i % 7 == 0 { Flower::Alive } else { Flower::Dead };
        assert_eq!(cells[i], expected);
    }
}

#[test]
fn zero_dimension_rejected() {
    assert_eq!(Universe::try_new(0, 5).unwrap_err(), GridError::InvalidDimensions);
    assert_eq!(Universe::try_new(5, 0).unwrap_err(), GridError::InvalidDimensions);
    assert_eq!(Universe::try_new(0, 0).unwrap_err(), GridError::InvalidDimensions);
    assert!(Universe::try_new(1, 1).is_ok());
}

#[test]
fn set_flowers_marks_only_listed_cells() {
    let mut u = empty_grid(4, 4);
    u.set_flowers(&[(0, 0), (2, 3)]);
    assert_eq!(live_count(&u), 2);
    assert_eq!(flower_at(&u, 0, 0), Flower::Alive);
    assert_eq!(flower_at(&u, 2, 3), Flower::Alive);
    assert_eq!(flower_at(&u, 2, 2), Flower::Dead);
}

#[test]
fn try_set_flowers_rejects_out_of_range() {
    let mut u = empty_grid(4, 4);
    let r = u.try_set_flowers(&[(1, 1), (4, 0)]);
    assert_eq!(r.unwrap_err(), GridError::InvalidCoordinate);
    assert_eq!(live_count(&u), 0);

    let r = u.try_set_flowers(&[(0, 4)]);
    assert_eq!(r.unwrap_err(), GridError::InvalidCoordinate);
    assert_eq!(live_count(&u), 0);

    assert!(u.try_set_flowers(&[(3, 3)]).is_ok());
    assert_eq!(flower_at(&u, 3, 3), Flower::Alive);
}

#[test]
fn wraparound_corner_neighbors() {
    // Three live cells that touch (0, 0) only through the wrapped edges:
    // a dead corner with exactly three live neighbors comes alive.
    let mut u = empty_grid(4, 4);
    u.set_flowers(&[(3, 3), (3, 0), (0, 3)]);
    u.tick();
    assert_eq!(flower_at(&u, 0, 0), Flower::Alive);
}

#[test]
fn rule_fidelity_center_survives() {
    // Fixed 3-by-3 grid, all dead except the live center with exactly two
    // live neighbors: the center stays alive.
    let mut u = empty_grid(3, 3);
    u.set_flowers(&[(1, 1), (0, 0), (2, 2)]);
    u.tick();
    assert_eq!(flower_at(&u, 1, 1), Flower::Alive);
}

#[test]
fn underpopulation_kills() {
    let mut u = empty_grid(5, 5);
    u.set_flowers(&[(2, 2)]);
    u.tick();
    assert_eq!(flower_at(&u, 2, 2), Flower::Dead);

    let mut v = empty_grid(5, 5);
    v.set_flowers(&[(2, 2), (2, 3)]);
    v.tick();
    assert_eq!(flower_at(&v, 2, 2), Flower::Dead);
    assert_eq!(flower_at(&v, 2, 3), Flower::Dead);
}

#[test]
fn overpopulation_kills() {
    let mut u = empty_grid(5, 5);
    u.set_flowers(&[(2, 2), (1, 1), (1, 3), (3, 1), (3, 3)]);
    u.tick();
    assert_eq!(flower_at(&u, 2, 2), Flower::Dead);
}

#[test]
fn rebirth_with_three_neighbors() {
    let mut u = empty_grid(5, 5);
    u.set_flowers(&[(1, 1), (1, 2), (1, 3)]);
    u.tick();
    assert_eq!(flower_at(&u, 2, 2), Flower::Alive);
    assert_eq!(flower_at(&u, 0, 2), Flower::Alive);
}

#[test]
fn block_still_life_is_stable() {
    let mut u = empty_grid(6, 6);
    u.set_flowers(&[(1, 1), (1, 2), (2, 1), (2, 2)]);
    let before: Vec<Flower> = u.get_flowers().to_vec();
    for _ in 0..5 {
        u.tick();
        assert_eq!(u.get_flowers(), before.as_slice());
    }
}

#[test]
fn synchronous_update_blinker() {
    // A horizontal row of three live cells. Updating every cell from the
    // previous generation turns it into a vertical row; updating in place,
    // cell by cell, would not.
    let mut u = empty_grid(5, 5);
    u.set_flowers(&[(2, 1), (2, 2), (2, 3)]);
    u.tick();
    for row in 0..5 {
        for col in 0..5 {
            let expected = if col == 2 && (1..=3).contains(&row) {
                Flower::Alive
            } else {
                Flower::Dead
            };
            assert_eq!(flower_at(&u, row, col), expected);
        }
    }
    u.tick();
    for row in 0..5 {
        for col in 0..5 {
            let expected = if row == 2 && (1..=3).contains(&col) {
                Flower::Alive
            } else {
                Flower::Dead
            };
            assert_eq!(flower_at(&u, row, col), expected);
        }
    }
}

#[test]
fn resize_clears_content() {
    let mut u = Universe::new();
    u.set_width(10);
    assert_eq!(u.get_flowers().len(), 10 * 64);
    assert_eq!(live_count(&u), 0);

    let mut v = Universe::new();
    v.set_height(5);
    assert_eq!(v.get_flowers().len(), 64 * 5);
    assert_eq!(live_count(&v), 0);
}

#[test]
fn render_exact_text() {
    let mut u = empty_grid(3, 2);
    u.set_flowers(&[(0, 1), (1, 2)]);
    assert_eq!(u.render(), "◻◼◻\n◻◻◼\n");
}

#[test]
fn render_shape_and_glyphs() {
    let u = Universe::new();
    let text = u.render();
    let lines: Vec<&str> = text.split_terminator('\n').collect();
    assert_eq!(lines.len(), 64);
    for line in lines {
        assert_eq!(line.chars().count(), 64);
        assert!(line.chars().all(|c| c == '◻' || c == '◼'));
    }
    assert!(text.ends_with('\n'));
}

#[test]
fn render_has_no_side_effects() {
    let u = Universe::new();
    let before: Vec<Flower> = u.get_flowers().to_vec();
    let _ = u.render();
    assert_eq!(u.get_flowers(), before.as_slice());
}
