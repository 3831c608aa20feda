use brainfuck::tape::{BrainfuckContext, TAPE_SIZE};

#[test]
fn tape_has_32767_cells() {
    assert_eq!(TAPE_SIZE, 32767);
}

#[test]
fn new_tape_is_blank() {
    let context = BrainfuckContext::new();
    assert_eq!(context.index(), 0);
    assert_eq!(context.curr(), 0);
    for at in 0..TAPE_SIZE {
        assert_eq!(context.cell(at), Some(0));
    }
    assert_eq!(context.cell(TAPE_SIZE), None);
    assert_eq!(context.cell(usize::MAX), None);
}

#[test]
fn shl_from_cell_zero_goes_to_the_last_cell() {
    let mut context = BrainfuckContext::new();
    context.shl();
    assert_eq!(context.index(), TAPE_SIZE - 1);
    assert_eq!(context.index(), 32766);
}

#[test]
fn shr_from_the_last_cell_goes_to_cell_zero() {
    let mut context = BrainfuckContext::new();
    context.shl();
    context.shr();
    assert_eq!(context.index(), 0);
}

#[test]
fn shr_goes_round_the_whole_tape() {
    let mut context = BrainfuckContext::new();
    for step in 0..TAPE_SIZE {
        assert_eq!(context.index(), step);
        context.shr();
    }
    assert_eq!(context.index(), 0);
}

#[test]
fn shl_goes_round_the_whole_tape() {
    let mut context = BrainfuckContext::new();
    for step in 0..TAPE_SIZE {
        context.shl();
        assert_eq!(context.index(), TAPE_SIZE - 1 - step);
    }
    assert_eq!(context.index(), 0);
}

#[test]
fn shl_and_shr_move_by_one_away_from_the_ends() {
    let mut context = BrainfuckContext::new();
    context.shr();
    context.shr();
    assert_eq!(context.index(), 2);
    context.shl();
    assert_eq!(context.index(), 1);
}

#[test]
fn incr_adds_one() {
    let mut context = BrainfuckContext::new();
    context.incr();
    assert_eq!(context.curr(), 1);
    context.incr();
    assert_eq!(context.curr(), 2);
}

#[test]
fn incr_wraps_from_255_to_zero() {
    let mut context = BrainfuckContext::new();
    for _ in 0..255 {
        context.incr();
    }
    assert_eq!(context.curr(), 255);
    context.incr();
    assert_eq!(context.curr(), 0);
}

#[test]
fn decr_wraps_from_zero_to_255() {
    let mut context = BrainfuckContext::new();
    context.decr();
    assert_eq!(context.curr(), 255);
    context.decr();
    assert_eq!(context.curr(), 254);
}

#[test]
fn decr_undoes_incr() {
    let mut context = BrainfuckContext::new();
    context.read(255);
    context.incr();
    context.decr();
    assert_eq!(context.curr(), 255);
    context.read(0);
    context.decr();
    context.incr();
    assert_eq!(context.curr(), 0);
}

#[test]
fn read_stores_the_byte_in_the_current_cell_only() {
    let mut context = BrainfuckContext::new();
    context.shr();
    context.read(42);
    assert_eq!(context.curr(), 42);
    assert_eq!(context.index(), 1);
    assert_eq!(context.cell(0), Some(0));
    assert_eq!(context.cell(1), Some(42));
    assert_eq!(context.cell(2), Some(0));
    context.read(0);
    assert_eq!(context.curr(), 0);
}

#[test]
fn cells_keep_their_values_while_the_pointer_moves() {
    let mut context = BrainfuckContext::new();
    context.incr();
    context.shl();
    context.decr();
    context.shr();
    assert_eq!(context.curr(), 1);
    assert_eq!(context.cell(0), Some(1));
    assert_eq!(context.cell(TAPE_SIZE - 1), Some(255));
}
