//! Laws of the language, proved of the model that the contracts speak of.

use vstd::prelude::*;
use crate::brainfuck::{lemma_after_adds, lemma_stopped_stays, run, Fault, Run};
use crate::semantics::{
    bracket, lemma_initial_wf, lemma_open_loops, lemma_step_wf, open_loops, Effect, State,
};
use crate::symbol::Symbol;
use crate::tape::{Tape, TAPE_SIZE};

verus! {

/// True of the four symbols that touch nothing but the tape.
pub open spec fn plain(symbol: Symbol) -> bool {
    symbol is IncrementCell || symbol is DecrementCell || symbol is MoveLeft || symbol is MoveRight
}

/// What a plain symbol does to the tape.
pub open spec fn apply(tape: Tape, symbol: Symbol) -> Tape {
    match symbol {
        Symbol::IncrementCell => tape.incr(),
        Symbol::DecrementCell => tape.decr(),
        Symbol::MoveLeft => tape.shl(),
        Symbol::MoveRight => tape.shr(),
        _ => tape,
    }
}

/// The tape after the symbols at `from`, ..., `to - 1` were applied in turn.
pub open spec fn tape_after(tape: Tape, program: Seq<Symbol>, from: int, to: int) -> Tape
    decreases to - from,
{
    if to <= from {
        tape
    } else {
        apply(tape_after(tape, program, from, to - 1), program[to - 1])
    }
}

/// What a symbol adds to the current cell.
pub open spec fn cell_delta(symbol: Symbol) -> int {
    match symbol {
        Symbol::IncrementCell => 1,
        Symbol::DecrementCell => -1,
        _ => 0,
    }
}

/// What a symbol adds to the data pointer.
pub open spec fn pointer_delta(symbol: Symbol) -> int {
    match symbol {
        Symbol::MoveRight => 1,
        Symbol::MoveLeft => -1,
        _ => 0,
    }
}

/// The increments minus the decrements among the symbols at `from`, ...,
/// `to - 1`.
pub open spec fn cell_change(program: Seq<Symbol>, from: int, to: int) -> int
    decreases to - from,
{
    if to <= from {
        0
    } else {
        cell_change(program, from, to - 1) + cell_delta(program[to - 1])
    }
}

/// The moves to the right minus the moves to the left among the symbols at
/// `from`, ..., `to - 1`.
pub open spec fn pointer_change(program: Seq<Symbol>, from: int, to: int) -> int
    decreases to - from,
{
    if to <= from {
        0
    } else {
        pointer_change(program, from, to - 1) + pointer_delta(program[to - 1])
    }
}

/// The loop starts minus the loop ends among the symbols at `from`, ...,
/// `to - 1`.
pub open spec fn nesting(program: Seq<Symbol>, from: int, to: int) -> int
    decreases to - from,
{
    if to <= from {
        0
    } else {
        nesting(program, from, to - 1) + bracket(program[to - 1])
    }
}

/// The text from a loop start at `open` holds a loop open up to `end`: every
/// stretch of it that begins at `open` and ends at or before `end` starts
/// more loops than it ends.
pub open spec fn open_through(program: Seq<Symbol>, open: int, end: int) -> bool {
    forall|to: int| open < to <= end ==> #[trigger] nesting(program, open, to) > 0
}

/// The loop that starts at `open` ends at `close`: the text holds the loop
/// open up to `close`, and the symbol at `close` closes it.
pub open spec fn matching(program: Seq<Symbol>, open: int, close: int) -> bool {
    &&& 0 <= open < close < program.len()
    &&& program[open] == Symbol::LoopStart
    &&& open_through(program, open, close)
    &&& nesting(program, open, close + 1) == 0
}

/// True when the symbol at `at` is a loop end and the text before it leaves
/// no loop open for it to close.
pub open spec fn unmatched_end(program: Seq<Symbol>, at: int) -> bool {
    &&& 0 <= at < program.len()
    &&& program[at] == Symbol::LoopEnd
    &&& open_loops(program, at).len() == 0
}

/// A run that is well formed stays well formed, however many steps it takes.
pub proof fn law_well_formed_stays(run: Run, program: Seq<Symbol>, input: Seq<u8>, steps: nat)
    requires
        run.wf(program, input),
    ensures
        run.after(program, input, steps).wf(program, input),
    decreases steps,
{
    if steps > 0 {
        let before = run.after(program, input, (steps - 1) as nat);
        law_well_formed_stays(run, program, input, (steps - 1) as nat);
        lemma_step_wf(before.state, program, before.offered(input));
    }
}

/// Every run of a program that fits in memory is well formed at every step:
/// the data pointer is on the tape, the instruction pointer is in the
/// program or just past it, and the loop stack and the skip depth account
/// for the loops that the text before the instruction pointer leaves open.
pub proof fn law_run_well_formed(program: Seq<Symbol>, input: Seq<u8>, steps: nat)
    requires
        program.len() <= usize::MAX,
    ensures
        run(program, input, steps).wf(program, input),
{
    lemma_initial_wf(program);
    law_well_formed_stays(Run::start(), program, input, steps);
}

/// Adding to a cell twice adds the sum, modulo 256.
pub proof fn lemma_bump_adds(tape: Tape, first: int, then: int)
    requires
        tape.wf(),
    ensures
        tape.bump(first).wf(),
        tape.bump(first).bump(then) == tape.bump(first + then),
        tape.bump(0) == tape,
{
    assert(tape.bump(first).bump(then).cells =~= tape.bump(first + then).cells);
    assert(tape.bump(0).cells =~= tape.cells);
}

/// Moving the data pointer twice moves it by the sum, round the circle.
pub proof fn lemma_shift_adds(tape: Tape, first: int, then: int)
    requires
        tape.wf(),
    ensures
        tape.shift(first).wf(),
        tape.shift(first).shift(then) == tape.shift(first + then),
        tape.shift(0) == tape,
{
}

/// A cell wraps: one more than 255 is 0, one less than 0 is 255, and a
/// decrement undoes an increment.
pub proof fn law_cell_wraps(tape: Tape)
    requires
        tape.wf(),
    ensures
        tape.incr().wf(),
        tape.decr().wf(),
        tape.incr().curr() == if tape.curr() == 255 {
            0
        } else {
            tape.curr() + 1
        },
        tape.decr().curr() == if tape.curr() == 0 {
            255
        } else {
            tape.curr() - 1
        },
        tape.incr().decr() == tape,
        tape.decr().incr() == tape,
{
    assert(tape.incr().decr().cells =~= tape.cells);
    assert(tape.decr().incr().cells =~= tape.cells);
}

/// The data pointer wraps: one cell to the left of cell 0 is the last cell,
/// one cell to the right of the last cell is cell 0, and a move to one side
/// undoes a move to the other. No move changes a cell.
pub proof fn law_pointer_wraps(tape: Tape)
    requires
        tape.wf(),
    ensures
        tape.shl().wf(),
        tape.shr().wf(),
        tape.shl().cells == tape.cells,
        tape.shr().cells == tape.cells,
        tape.shl().index == if tape.index == 0 {
            TAPE_SIZE - 1
        } else {
            tape.index - 1
        },
        tape.shr().index == if tape.index == TAPE_SIZE - 1 {
            0
        } else {
            tape.index + 1
        },
        tape.shl().shr() == tape,
        tape.shr().shl() == tape,
{
}

/// A stretch of plain symbols runs in as many steps as it has symbols, does
/// to the tape what its symbols do in turn, and leaves everything else as
/// it was.
pub proof fn law_straight_line(run: Run, program: Seq<Symbol>, input: Seq<u8>, to: int)
    requires
        run.state.dispatching(),
        0 <= run.state.pointer <= to <= program.len(),
        forall|i: int| run.state.pointer <= i < to ==> plain(#[trigger] program[i]),
    ensures
        run.after(program, input, (to - run.state.pointer) as nat) == (Run {
            state: State {
                tape: tape_after(run.state.tape, program, run.state.pointer, to),
                pointer: to,
                ..run.state
            },
            ..run
        }),
    decreases to - run.state.pointer,
{
    if to > run.state.pointer {
        law_straight_line(run, program, input, to - 1);
        assert(plain(program[to - 1]));
    }
}

/// A program of plain symbols alone halts after exactly as many steps as it
/// has symbols: with fewer steps it is cut off, with that many or more it
/// ends at its end, having read and written nothing.
pub proof fn law_plain_program_halts(program: Seq<Symbol>, input: Seq<u8>, steps: nat)
    requires
        forall|i: int| 0 <= i < program.len() ==> plain(#[trigger] program[i]),
    ensures
        steps < program.len() ==> run(program, input, steps).outcome(program, input) == Err::<
            (),
            Fault,
        >(Fault::StepLimit),
        steps < program.len() ==> run(program, input, steps).state.pointer == steps,
        steps >= program.len() ==> run(program, input, steps).outcome(program, input) == Ok::<
            (),
            Fault,
        >(()),
        steps >= program.len() ==> run(program, input, steps) == run(
            program,
            input,
            program.len(),
        ),
        run(program, input, steps).consumed == 0,
        run(program, input, steps).output == Seq::<u8>::empty(),
{
    let start = Run::start();
    if steps <= program.len() {
        law_straight_line(start, program, input, steps as int);
        if steps < program.len() {
            assert(plain(program[steps as int]));
        }
    } else {
        law_straight_line(start, program, input, program.len() as int);
        let end = run(program, input, program.len());
        lemma_stopped_stays(end, program, input, (steps - program.len()) as nat);
        lemma_after_adds(start, program, input, program.len(), (steps - program.len()) as nat);
    }
}

/// Cell arithmetic is modulo 256: a stretch of increments and decrements
/// adds to the current cell the number of its increments minus the number of
/// its decrements, modulo 256, and changes nothing else.
pub proof fn law_cell_arithmetic(run: Run, program: Seq<Symbol>, input: Seq<u8>, to: int)
    requires
        run.state.tape.wf(),
        run.state.dispatching(),
        0 <= run.state.pointer <= to <= program.len(),
        forall|i: int|
            run.state.pointer <= i < to ==> #[trigger] program[i] is IncrementCell || program[i]
                is DecrementCell,
    ensures
        run.after(program, input, (to - run.state.pointer) as nat) == (Run {
            state: State {
                tape: run.state.tape.bump(cell_change(program, run.state.pointer, to)),
                pointer: to,
                ..run.state
            },
            ..run
        }),
{
    assert forall|i: int| run.state.pointer <= i < to implies plain(#[trigger] program[i]) by {
        assert(program[i] is IncrementCell || program[i] is DecrementCell);
    }
    law_straight_line(run, program, input, to);
    lemma_cells_after(run.state.tape, program, run.state.pointer, to);
}

/// Pointer arithmetic is modulo the tape size: a stretch of moves adds to
/// the data pointer the number of its moves to the right minus the number of
/// its moves to the left, modulo the tape size, and changes nothing else.
pub proof fn law_pointer_arithmetic(run: Run, program: Seq<Symbol>, input: Seq<u8>, to: int)
    requires
        run.state.tape.wf(),
        run.state.dispatching(),
        0 <= run.state.pointer <= to <= program.len(),
        forall|i: int|
            run.state.pointer <= i < to ==> #[trigger] program[i] is MoveLeft || program[i]
                is MoveRight,
    ensures
        run.after(program, input, (to - run.state.pointer) as nat) == (Run {
            state: State {
                tape: run.state.tape.shift(pointer_change(program, run.state.pointer, to)),
                pointer: to,
                ..run.state
            },
            ..run
        }),
{
    assert forall|i: int| run.state.pointer <= i < to implies plain(#[trigger] program[i]) by {
        assert(program[i] is MoveLeft || program[i] is MoveRight);
    }
    law_straight_line(run, program, input, to);
    lemma_pointer_after(run.state.tape, program, run.state.pointer, to);
}

/// Increments and decrements applied in turn add up in the current cell.
proof fn lemma_cells_after(tape: Tape, program: Seq<Symbol>, from: int, to: int)
    requires
        tape.wf(),
        forall|i: int|
            from <= i < to ==> #[trigger] program[i] is IncrementCell || program[i]
                is DecrementCell,
    ensures
        tape_after(tape, program, from, to) == tape.bump(cell_change(program, from, to)),
    decreases to - from,
{
    if to <= from {
        lemma_bump_adds(tape, 0, 0);
    } else {
        lemma_cells_after(tape, program, from, to - 1);
        assert(program[to - 1] is IncrementCell || program[to - 1] is DecrementCell);
        lemma_bump_adds(tape, cell_change(program, from, to - 1), cell_delta(program[to - 1]));
    }
}

/// Moves applied in turn add up in the data pointer.
proof fn lemma_pointer_after(tape: Tape, program: Seq<Symbol>, from: int, to: int)
    requires
        tape.wf(),
        forall|i: int|
            from <= i < to ==> #[trigger] program[i] is MoveLeft || program[i] is MoveRight,
    ensures
        tape_after(tape, program, from, to) == tape.shift(pointer_change(program, from, to)),
    decreases to - from,
{
    if to <= from {
        lemma_shift_adds(tape, 0, 0);
    } else {
        lemma_pointer_after(tape, program, from, to - 1);
        assert(program[to - 1] is MoveLeft || program[to - 1] is MoveRight);
        lemma_shift_adds(
            tape,
            pointer_change(program, from, to - 1),
            pointer_delta(program[to - 1]),
        );
    }
}

/// True when the next step of `run` executes the instruction `symbol`: the
/// instruction pointer is on it and the engine is not scanning past a loop.
pub open spec fn dispatches(run: Run, program: Seq<Symbol>, symbol: Symbol) -> bool {
    &&& 0 <= run.state.pointer < program.len()
    &&& run.state.dispatching()
    &&& program[run.state.pointer] == symbol
}

/// Each output instruction writes one byte, the current cell, and nothing
/// else writes. Each input instruction that finds a byte in the source
/// consumes that one byte and stores it in the current cell, and nothing
/// else consumes.
pub proof fn law_one_byte_per_instruction(run: Run, program: Seq<Symbol>, input: Seq<u8>)
    requires
        run.wf(program, input),
    ensures
        run.next(program, input).output == if dispatches(run, program, Symbol::Output) {
            run.output.push(run.state.tape.curr())
        } else {
            run.output
        },
        run.next(program, input).consumed == if dispatches(run, program, Symbol::Input)
            && run.consumed < input.len() {
            run.consumed + 1
        } else {
            run.consumed
        },
        dispatches(run, program, Symbol::Input) && run.consumed < input.len() ==> run.next(
            program,
            input,
        ).state.tape == run.state.tape.store(input[run.consumed]),
        dispatches(run, program, Symbol::Input) && run.consumed == input.len() ==> run.next(
            program,
            input,
        ) == run && run.outcome(program, input) == Err::<(), Fault>(
            Fault::InputExhausted { position: run.state.pointer as usize },
        ),
{
}

/// A loop that is entered on a zero cell is scanned past. While the text
/// holds the loop open the engine does nothing but count loop starts and
/// loop ends: after each step the skip depth is the nesting of the text
/// scanned, and the tape, the loop stack, the source and the sink are as
/// they were on entry.
pub proof fn law_scan(run: Run, program: Seq<Symbol>, input: Seq<u8>, steps: nat)
    requires
        run.state.dispatching(),
        run.state.tape.curr() == 0,
        steps >= 1,
        0 <= run.state.pointer,
        run.state.pointer + steps <= program.len(),
        program[run.state.pointer] == Symbol::LoopStart,
        open_through(program, run.state.pointer, run.state.pointer + steps - 1),
    ensures
        run.after(program, input, steps) == (Run {
            state: State {
                pointer: run.state.pointer + steps,
                skip: nesting(program, run.state.pointer, run.state.pointer + steps),
                ..run.state
            },
            ..run
        }),
    decreases steps,
{
    let open = run.state.pointer;
    if steps == 1 {
        assert(nesting(program, open, open) == 0);
        assert(run.after(program, input, 0) == run);
    } else {
        law_scan(run, program, input, (steps - 1) as nat);
        assert(nesting(program, open, open + steps - 1) > 0);
    }
}

/// A loop that is entered on a zero cell runs its body zero times, whatever
/// loops the body holds: the engine is in normal execution again one step
/// past the matching loop end and not before, with the tape, the loop stack,
/// the source and the sink as they were on entry.
pub proof fn law_skipped_loop(run: Run, program: Seq<Symbol>, input: Seq<u8>, close: int)
    requires
        run.state.dispatching(),
        run.state.tape.curr() == 0,
        matching(program, run.state.pointer, close),
    ensures
        run.after(program, input, (close - run.state.pointer + 1) as nat) == (Run {
            state: State { pointer: close + 1, ..run.state },
            ..run
        }),
        forall|steps: nat|
            1 <= steps <= close - run.state.pointer ==> !(#[trigger] run.after(
                program,
                input,
                steps,
            )).state.dispatching(),
{
    let open = run.state.pointer;
    law_scan(run, program, input, (close - open + 1) as nat);
    assert forall|steps: nat| 1 <= steps <= close - open implies !(#[trigger] run.after(
        program,
        input,
        steps,
    )).state.dispatching() by {
        law_scan(run, program, input, steps);
        assert(nesting(program, open, open + steps) > 0);
    }
}

/// A loop without an end that is entered on a zero cell takes the rest of
/// the program with it: the run halts at the end of the program, still
/// scanning, with the tape, the loop stack, the source and the sink as they
/// were on entry.
pub proof fn law_skipped_loop_without_end(run: Run, program: Seq<Symbol>, input: Seq<u8>)
    requires
        run.state.dispatching(),
        run.state.tape.curr() == 0,
        0 <= run.state.pointer < program.len(),
        program[run.state.pointer] == Symbol::LoopStart,
        open_through(program, run.state.pointer, program.len() as int),
    ensures
        run.after(program, input, (program.len() - run.state.pointer) as nat) == (Run {
            state: State {
                pointer: program.len() as int,
                skip: nesting(program, run.state.pointer, program.len() as int),
                ..run.state
            },
            ..run
        }),
        run.after(program, input, (program.len() - run.state.pointer) as nat).outcome(
            program,
            input,
        ) == Ok::<(), Fault>(()),
{
    law_scan(run, program, input, (program.len() - run.state.pointer) as nat);
}

/// A loop has at most one matching end.
pub proof fn law_matching_unique(program: Seq<Symbol>, open: int, close: int, other: int)
    requires
        matching(program, open, close),
        matching(program, open, other),
    ensures
        close == other,
{
    if close < other {
        assert(nesting(program, open, close + 1) > 0);
    } else if other < close {
        assert(nesting(program, open, other + 1) > 0);
    }
}

/// While the text holds a loop open, the nesting counted from its start is
/// the number of loops open there, itself and the loops inside it.
proof fn lemma_nesting_counts_open_loops(program: Seq<Symbol>, upto: int, i: int, to: int)
    requires
        0 <= i < open_loops(program, upto).len(),
        open_loops(program, upto)[i] < to <= upto,
    ensures
        nesting(program, open_loops(program, upto)[i], to) == open_loops(program, to).len() - i,
        open_loops(program, to).len() > i,
        open_loops(program, to)[i] == open_loops(program, upto)[i],
    decreases upto,
{
    let before = open_loops(program, upto - 1);
    let start = open_loops(program, upto)[i];
    lemma_open_loops(program, upto, i);
    if i < before.len() && before[i] == start {
        // The loop was open one symbol earlier already.
        lemma_open_loops(program, upto - 1, i);
        let earlier = if to < upto {
            to
        } else {
            upto - 1
        };
        lemma_nesting_counts_open_loops(program, upto - 1, i, earlier);
    } else {
        // The loop starts at the last symbol.
        assert(nesting(program, start, start) == 0);
    }
}

/// A loop end closes the innermost loop that the text before it leaves open.
pub proof fn law_loop_end_matches(program: Seq<Symbol>, close: int)
    requires
        0 <= close < program.len(),
        program[close] == Symbol::LoopEnd,
        open_loops(program, close).len() > 0,
    ensures
        matching(program, open_loops(program, close).last(), close),
{
    let i = open_loops(program, close).len() - 1;
    let open = open_loops(program, close).last();
    lemma_open_loops(program, close, i);
    assert forall|to: int| open < to <= close implies #[trigger] nesting(program, open, to)
        > 0 by {
        lemma_nesting_counts_open_loops(program, close, i, to);
    }
    lemma_nesting_counts_open_loops(program, close, i, close);
}

/// A loop end on a nonzero cell takes the run back into its own loop: the
/// next step is the matching loop start, and the step after it the first
/// instruction of the body, with everything but the instruction pointer as
/// it was at the loop end. A loop end on a zero cell leaves the loop: the
/// next step is the instruction after it, with the loop closed.
pub proof fn law_loop_end(run: Run, program: Seq<Symbol>, input: Seq<u8>)
    requires
        run.wf(program, input),
        run.state.dispatching(),
        run.state.pointer < program.len(),
        program[run.state.pointer] == Symbol::LoopEnd,
        run.state.loop_stack.len() > 0,
    ensures
        matching(program, run.state.loop_stack.last(), run.state.pointer),
        run.state.tape.curr() != 0 ==> run.next(program, input) == (Run {
            state: State {
                pointer: run.state.loop_stack.last(),
                loop_stack: run.state.loop_stack.drop_last(),
                ..run.state
            },
            ..run
        }),
        run.state.tape.curr() != 0 ==> run.after(program, input, 2) == (Run {
            state: State { pointer: run.state.loop_stack.last() + 1, ..run.state },
            ..run
        }),
        run.state.tape.curr() == 0 ==> run.next(program, input) == (Run {
            state: State {
                pointer: run.state.pointer + 1,
                loop_stack: run.state.loop_stack.drop_last(),
                ..run.state
            },
            ..run
        }),
{
    let close = run.state.pointer;
    let open = run.state.loop_stack.last();
    assert(run.state.loop_stack == open_loops(program, close));
    law_loop_end_matches(program, close);
    if run.state.tape.curr() != 0 {
        let back = run.next(program, input);
        assert(run.after(program, input, 0) == run);
        assert(run.after(program, input, 1) == back);
        assert(back.next(program, input).state.loop_stack == run.state.loop_stack);
    }
}

/// A loop end that closes no loop is fatal. The engine reports an unmatched
/// loop end exactly when the instruction pointer is on a loop end that the
/// text before it leaves no loop open for. It reports it with its position,
/// does not move past it, and the run ends with that fault whatever its step
/// budget.
pub proof fn law_unmatched_loop_end(run: Run, program: Seq<Symbol>, input: Seq<u8>, steps: nat)
    requires
        run.wf(program, input),
    ensures
        run.effect(program, input) is UnmatchedLoopEnd <==> unmatched_end(
            program,
            run.state.pointer,
        ),
        unmatched_end(program, run.state.pointer) ==> {
            &&& run.effect(program, input) == (Effect::UnmatchedLoopEnd {
                position: run.state.pointer as usize,
            })
            &&& run.state.pointer as usize == run.state.pointer
            &&& run.after(program, input, steps) == run
            &&& run.after(program, input, steps).outcome(program, input) == Err::<(), Fault>(
                Fault::UnmatchedLoopEnd { position: run.state.pointer as usize },
            )
        },
{
    if unmatched_end(program, run.state.pointer) {
        lemma_stopped_stays(run, program, input, steps);
    }
}

/// A run that halts has closed every loop that the text closes: at the end
/// of the program the loop stack and the skip depth together count the loops
/// that the text leaves open, so both are zero when it leaves none.
pub proof fn law_halted_loops(run: Run, program: Seq<Symbol>, input: Seq<u8>)
    requires
        run.wf(program, input),
        run.effect(program, input) is Halted,
    ensures
        run.state.pointer == program.len(),
        run.state.loop_stack.len() + run.state.skip == open_loops(
            program,
            program.len() as int,
        ).len(),
{
}

} // verus!
