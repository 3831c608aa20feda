use brainfuck::engine::Engine;
use brainfuck::semantics::Effect;
use brainfuck::symbol::load;
use brainfuck::tape::TAPE_SIZE;

/// Steps `engine` `count` times with no input on offer and returns the effects.
fn steps(engine: &mut Engine, count: usize) -> Vec<Effect> {
    let mut effects = Vec::new();
    for _ in 0..count {
        effects.push(engine.step(None));
    }
    effects
}

#[test]
fn new_engine_is_at_the_start_on_a_blank_tape() {
    let engine = Engine::new(load("+[-]"));
    assert_eq!(engine.pointer(), 0);
    assert_eq!(engine.depth(), 0);
    assert_eq!(engine.skip_depth(), 0);
    assert_eq!(engine.context().index(), 0);
    assert_eq!(engine.context().curr(), 0);
}

#[test]
fn engine_on_an_empty_program_is_halted() {
    let mut engine = Engine::new(load(""));
    assert_eq!(engine.effect(None), Effect::Halted);
    assert_eq!(engine.step(None), Effect::Halted);
    assert_eq!(engine.step(Some(1)), Effect::Halted);
    assert_eq!(engine.pointer(), 0);
}

#[test]
fn plain_program_takes_one_step_per_symbol() {
    let mut engine = Engine::new(load("++>-<"));
    for at in 0..5 {
        assert_eq!(engine.pointer(), at);
        assert_eq!(engine.step(None), Effect::Advanced);
    }
    assert_eq!(engine.pointer(), 5);
    assert_eq!(engine.step(None), Effect::Halted);
    assert_eq!(engine.pointer(), 5);
    assert_eq!(engine.context().cell(0), Some(2));
    assert_eq!(engine.context().cell(1), Some(255));
    assert_eq!(engine.context().index(), 0);
}

#[test]
fn effect_says_what_step_will_do_and_changes_nothing() {
    let mut engine = Engine::new(load("+.,]"));
    assert_eq!(engine.effect(None), Effect::Advanced);
    assert_eq!(engine.effect(None), Effect::Advanced);
    assert_eq!(engine.pointer(), 0);
    assert_eq!(engine.step(None), Effect::Advanced);
    assert_eq!(engine.effect(None), Effect::Write(1));
    assert_eq!(engine.step(None), Effect::Write(1));
    assert_eq!(engine.effect(None), Effect::AwaitingInput);
    assert_eq!(engine.effect(Some(9)), Effect::Read);
    assert_eq!(engine.step(Some(9)), Effect::Read);
    assert_eq!(engine.effect(None), Effect::UnmatchedLoopEnd { position: 3 });
    assert_eq!(engine.effect(Some(9)), Effect::UnmatchedLoopEnd { position: 3 });
}

#[test]
fn output_hands_back_the_current_cell() {
    let mut engine = Engine::new(load("+++."));
    assert_eq!(steps(&mut engine, 3), vec![Effect::Advanced; 3]);
    assert_eq!(engine.step(None), Effect::Write(3));
    assert_eq!(engine.pointer(), 4);
    assert_eq!(engine.context().curr(), 3);
}

#[test]
fn input_waits_until_a_byte_is_offered() {
    let mut engine = Engine::new(load(",."));
    assert_eq!(engine.step(None), Effect::AwaitingInput);
    assert_eq!(engine.step(None), Effect::AwaitingInput);
    assert_eq!(engine.pointer(), 0);
    assert_eq!(engine.context().curr(), 0);
    assert_eq!(engine.step(Some(77)), Effect::Read);
    assert_eq!(engine.pointer(), 1);
    assert_eq!(engine.context().curr(), 77);
    assert_eq!(engine.step(None), Effect::Write(77));
}

#[test]
fn offered_byte_is_left_alone_by_other_instructions() {
    let mut engine = Engine::new(load("+.[-],"));
    assert_eq!(engine.step(Some(5)), Effect::Advanced);
    assert_eq!(engine.step(Some(5)), Effect::Write(1));
    assert_eq!(engine.step(Some(5)), Effect::Advanced);
    assert_eq!(engine.step(Some(5)), Effect::Advanced);
    assert_eq!(engine.step(Some(5)), Effect::Advanced);
    assert_eq!(engine.context().curr(), 0);
    assert_eq!(engine.step(Some(5)), Effect::Read);
    assert_eq!(engine.context().curr(), 5);
}

#[test]
fn loop_start_on_a_nonzero_cell_opens_the_loop() {
    let mut engine = Engine::new(load("+[[-]]"));
    steps(&mut engine, 1);
    assert_eq!(engine.depth(), 0);
    assert_eq!(engine.step(None), Effect::Advanced);
    assert_eq!(engine.depth(), 1);
    assert_eq!(engine.skip_depth(), 0);
    assert_eq!(engine.pointer(), 2);
    assert_eq!(engine.step(None), Effect::Advanced);
    assert_eq!(engine.depth(), 2);
    assert_eq!(engine.pointer(), 3);
}

#[test]
fn loop_end_on_a_nonzero_cell_goes_back_to_the_loop_start() {
    let mut engine = Engine::new(load("++[-]"));
    steps(&mut engine, 4);
    assert_eq!(engine.pointer(), 4);
    assert_eq!(engine.depth(), 1);
    assert_eq!(engine.context().curr(), 1);
    // The loop end closes the loop and hands control to the loop start,
    assert_eq!(engine.step(None), Effect::Advanced);
    assert_eq!(engine.pointer(), 2);
    assert_eq!(engine.depth(), 0);
    // which opens it again.
    assert_eq!(engine.step(None), Effect::Advanced);
    assert_eq!(engine.pointer(), 3);
    assert_eq!(engine.depth(), 1);
}

#[test]
fn loop_end_on_a_zero_cell_leaves_the_loop() {
    let mut engine = Engine::new(load("+[-]+"));
    steps(&mut engine, 3);
    assert_eq!(engine.pointer(), 3);
    assert_eq!(engine.context().curr(), 0);
    assert_eq!(engine.step(None), Effect::Advanced);
    assert_eq!(engine.pointer(), 4);
    assert_eq!(engine.depth(), 0);
}

#[test]
fn loop_start_on_a_zero_cell_scans_to_the_matching_end() {
    let mut engine = Engine::new(load("[+[.]-[[,]]]+"));
    let depths: [usize; 12] = [1, 1, 2, 2, 1, 1, 2, 3, 3, 2, 1, 0];
    for (taken, depth) in depths.iter().enumerate() {
        assert_eq!(engine.step(None), Effect::Advanced);
        assert_eq!(engine.pointer(), taken + 1);
        assert_eq!(engine.skip_depth(), *depth);
        assert_eq!(engine.depth(), 0);
        assert_eq!(engine.context().curr(), 0);
        assert_eq!(engine.context().index(), 0);
    }
    assert_eq!(engine.pointer(), 12);
    assert_eq!(engine.step(None), Effect::Advanced);
    assert_eq!(engine.context().curr(), 1);
    assert_eq!(engine.step(None), Effect::Halted);
}

#[test]
fn scan_runs_off_the_end_when_the_loop_has_no_end() {
    let mut engine = Engine::new(load("[[+]"));
    assert_eq!(steps(&mut engine, 4), vec![Effect::Advanced; 4]);
    assert_eq!(engine.skip_depth(), 1);
    assert_eq!(engine.step(None), Effect::Halted);
    assert_eq!(engine.context().curr(), 0);
}

#[test]
fn unmatched_loop_end_stops_the_engine_where_it_is() {
    let mut engine = Engine::new(load("+]+"));
    assert_eq!(engine.step(None), Effect::Advanced);
    assert_eq!(engine.step(None), Effect::UnmatchedLoopEnd { position: 1 });
    assert_eq!(engine.step(None), Effect::UnmatchedLoopEnd { position: 1 });
    assert_eq!(engine.step(Some(0)), Effect::UnmatchedLoopEnd { position: 1 });
    assert_eq!(engine.pointer(), 1);
    assert_eq!(engine.context().curr(), 1);
}

#[test]
fn loop_end_after_a_closed_loop_is_unmatched() {
    let mut engine = Engine::new(load("+[-]]"));
    assert_eq!(steps(&mut engine, 4), vec![Effect::Advanced; 4]);
    assert_eq!(engine.step(None), Effect::UnmatchedLoopEnd { position: 4 });
}

#[test]
fn data_pointer_wraps_in_both_directions() {
    let mut engine = Engine::new(load("<>"));
    engine.step(None);
    assert_eq!(engine.context().index(), TAPE_SIZE - 1);
    engine.step(None);
    assert_eq!(engine.context().index(), 0);
}

#[test]
fn cell_wraps_in_both_directions() {
    let mut engine = Engine::new(load("-+"));
    engine.step(None);
    assert_eq!(engine.context().curr(), 255);
    engine.step(None);
    assert_eq!(engine.context().curr(), 0);
}

#[test]
fn nested_loops_multiply() {
    // 3 times 4 in cell 2.
    let mut engine = Engine::new(load("+++[>++++[>+<-]<-]"));
    let mut taken: u32 = 0;
    while engine.step(None) != Effect::Halted {
        taken += 1;
        assert!(taken < 10_000);
    }
    assert_eq!(engine.context().cell(0), Some(0));
    assert_eq!(engine.context().cell(1), Some(0));
    assert_eq!(engine.context().cell(2), Some(12));
    assert_eq!(engine.depth(), 0);
    assert_eq!(engine.skip_depth(), 0);
}

#[test]
fn engine_halts_with_the_loops_that_the_text_leaves_open() {
    let mut engine = Engine::new(load("+[[-"));
    assert_eq!(steps(&mut engine, 4), vec![Effect::Advanced; 4]);
    assert_eq!(engine.step(None), Effect::Halted);
    assert_eq!(engine.depth(), 2);
    assert_eq!(engine.skip_depth(), 0);

    let mut engine = Engine::new(load("+[>[[+"));
    assert_eq!(steps(&mut engine, 6), vec![Effect::Advanced; 6]);
    assert_eq!(engine.step(None), Effect::Halted);
    assert_eq!(engine.depth(), 1);
    assert_eq!(engine.skip_depth(), 2);
}
