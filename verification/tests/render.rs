use game_of_life::{Cell, World};

#[test]
fn empty_world_renders_as_spaces() {
    let world = World::new(3, 2).unwrap();
    assert_eq!(world.render(), "   \n   \n");
}

#[test]
fn rows_are_lines_and_columns_are_characters() {
    let mut world = World::new(4, 3).unwrap();
    world.set(0, 0, Cell::Live);
    world.set(3, 0, Cell::Live);
    world.set(1, 2, Cell::Live);
    assert_eq!(world.render(), "\u{2588}  \u{2588}\n    \n \u{2588}  \n");
}

#[test]
fn rendering_has_height_lines_of_width_glyphs() {
    let mut world = World::new(8, 6).unwrap();
    world.set(2, 1, Cell::Live);
    let text = world.render();
    let lines: Vec<&str> = text.lines().collect();
    assert_eq!(lines.len(), 6);
    for line in &lines {
        assert_eq!(line.chars().count(), 8);
    }
    assert!(text.ends_with('\n'));
    assert_eq!(lines[1].chars().nth(2), Some('\u{2588}'));
    assert_eq!(text.chars().filter(|c| *c == '\u{2588}').count(), 1);
}

#[test]
fn single_cell_world_renders_one_glyph() {
    let mut world = World::new(1, 1).unwrap();
    assert_eq!(world.render(), " \n");
    world.set(0, 0, Cell::Live);
    assert_eq!(world.render(), "\u{2588}\n");
}

#[test]
fn rendering_does_not_change_the_world() {
    let mut world = World::new(5, 5).unwrap();
    world.set(1, 2, Cell::Live);
    world.set(2, 2, Cell::Live);
    world.set(3, 2, Cell::Live);
    let first = world.render();
    let second = world.render();
    assert_eq!(first, second);
    world.cycle();
    assert_eq!(world.render(), "     \n  \u{2588}  \n  \u{2588}  \n  \u{2588}  \n     \n");
}

#[test]
fn scratch_is_dead_at_first_and_then_the_generation_before() {
    let mut world = World::new(5, 5).unwrap();
    world.set(1, 2, Cell::Live);
    world.set(2, 2, Cell::Live);
    world.set(3, 2, Cell::Live);
    assert_eq!(world.render_scratch(), "     \n     \n     \n     \n     \n");
    let before = world.render();
    world.cycle();
    assert_eq!(world.render_scratch(), before);
    let turned = world.render();
    world.cycle();
    assert_eq!(world.render_scratch(), turned);
    assert_eq!(world.render(), before);
}
