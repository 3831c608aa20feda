//! The mathematical model of the execution engine: its state, and what one
//! step does to it.

use vstd::prelude::*;
use crate::symbol::Symbol;
use crate::tape::Tape;

verus! {

/// What one step of the engine did, or why it did nothing.
#[derive(Clone, Copy, Debug, PartialEq, Eq, Structural)]
pub enum Effect {
    /// An instruction was dispatched, or scanned past, without any I/O.
    Advanced,
    /// The offered byte was stored into the current cell.
    Read,
    /// This byte is to be written to the sink.
    Write(u8),
    /// The next instruction is an input and no byte was offered; nothing changed.
    AwaitingInput,
    /// The instruction pointer is past the last instruction; nothing changed.
    Halted,
    /// The instruction at `position` closes a loop while none is open;
    /// nothing changed.
    UnmatchedLoopEnd { position: usize },
}

impl Effect {
    /// True of the effects that leave the state as it was.
    pub open spec fn stops(self) -> bool {
        self is AwaitingInput || self is Halted || self is UnmatchedLoopEnd
    }
}

/// The state of the engine between two steps.
pub struct State {
    /// The tape and its data pointer.
    pub tape: Tape,
    /// The instruction pointer.
    pub pointer: int,
    /// The positions of the loops that are open, innermost last.
    pub loop_stack: Seq<int>,
    /// Zero in normal execution; while a loop body is scanned past, the
    /// number of loops that the scan is inside of.
    pub skip: int,
}

/// What a symbol adds to the skip depth when it is scanned past.
pub open spec fn bracket(symbol: Symbol) -> int {
    match symbol {
        Symbol::LoopStart => 1,
        Symbol::LoopEnd => -1,
        _ => 0,
    }
}

/// The loops that the text before position `upto` opens and does not close:
/// the positions of their starts, outermost first. A loop end that closes
/// no loop is passed over.
pub open spec fn open_loops(program: Seq<Symbol>, upto: int) -> Seq<int>
    decreases upto,
{
    if upto <= 0 {
        Seq::empty()
    } else {
        let before = open_loops(program, upto - 1);
        match program[upto - 1] {
            Symbol::LoopStart => before.push(upto - 1),
            Symbol::LoopEnd => if before.len() > 0 {
                before.drop_last()
            } else {
                before
            },
            _ => before,
        }
    }
}

impl State {
    /// The state before the first step.
    pub open spec fn initial() -> State {
        State { tape: Tape::blank(), pointer: 0, loop_stack: Seq::empty(), skip: 0 }
    }

    /// What holds of every state that a run of `program` passes through.
    ///
    /// The tape is whole and the instruction pointer is in the program or
    /// just past it. The loop stack holds the loops that the text before the
    /// instruction pointer leaves open, outermost first, but for the
    /// innermost `skip` of them: those are the loops being scanned past.
    pub open spec fn wf(self, program: Seq<Symbol>) -> bool {
        &&& program.len() <= usize::MAX
        &&& self.tape.wf()
        &&& 0 <= self.skip <= self.pointer <= program.len()
        &&& open_loops(program, self.pointer).len() == self.loop_stack.len() + self.skip
        &&& self.loop_stack == open_loops(program, self.pointer).take(self.loop_stack.len() as int)
    }

    /// True when the state is in normal execution, not scanning past a loop.
    pub open spec fn dispatching(self) -> bool {
        self.skip == 0
    }

    /// The effect of the next step, given the byte that the source offers.
    pub open spec fn effect(self, program: Seq<Symbol>, input: Option<u8>) -> Effect {
        if !(0 <= self.pointer < program.len()) {
            Effect::Halted
        } else if !self.dispatching() {
            Effect::Advanced
        } else {
            match program[self.pointer] {
                Symbol::Output => Effect::Write(self.tape.curr()),
                Symbol::Input => if input is Some {
                    Effect::Read
                } else {
                    Effect::AwaitingInput
                },
                Symbol::LoopEnd => if self.loop_stack.len() == 0 {
                    Effect::UnmatchedLoopEnd { position: self.pointer as usize }
                } else {
                    Effect::Advanced
                },
                _ => Effect::Advanced,
            }
        }
    }

    /// The state with the instruction pointer on the next instruction.
    pub open spec fn advance(self) -> State {
        State { pointer: self.pointer + 1, ..self }
    }

    /// The state after the next step, given the byte that the source offers.
    pub open spec fn step(self, program: Seq<Symbol>, input: Option<u8>) -> State {
        if self.effect(program, input).stops() {
            self
        } else if !self.dispatching() {
            State { skip: self.skip + bracket(program[self.pointer]), ..self.advance() }
        } else {
            match program[self.pointer] {
                Symbol::IncrementCell => State { tape: self.tape.incr(), ..self.advance() },
                Symbol::DecrementCell => State { tape: self.tape.decr(), ..self.advance() },
                Symbol::MoveLeft => State { tape: self.tape.shl(), ..self.advance() },
                Symbol::MoveRight => State { tape: self.tape.shr(), ..self.advance() },
                Symbol::Output => self.advance(),
                Symbol::Input => State { tape: self.tape.store(input.unwrap()), ..self.advance() },
                Symbol::LoopStart => if self.tape.curr() != 0 {
                    State { loop_stack: self.loop_stack.push(self.pointer), ..self.advance() }
                } else {
                    State { skip: 1, ..self.advance() }
                },
                Symbol::LoopEnd => if self.tape.curr() != 0 {
                    State {
                        pointer: self.loop_stack.last(),
                        loop_stack: self.loop_stack.drop_last(),
                        ..self
                    }
                } else {
                    State { loop_stack: self.loop_stack.drop_last(), ..self.advance() }
                },
            }
        }
    }
}

/// Each loop that the text before `upto` leaves open starts before `upto`,
/// at a loop start, and the loops open at its start are the loops outside it.
pub proof fn lemma_open_loops(program: Seq<Symbol>, upto: int, i: int)
    requires
        0 <= i < open_loops(program, upto).len(),
    ensures
        0 <= open_loops(program, upto)[i] < upto,
        program[open_loops(program, upto)[i]] == Symbol::LoopStart,
        open_loops(program, open_loops(program, upto)[i]) == open_loops(program, upto).take(i),
    decreases upto,
{
    let before = open_loops(program, upto - 1);
    let now = open_loops(program, upto);
    if i < before.len() {
        lemma_open_loops(program, upto - 1, i);
        assert(now.take(i) == before.take(i));
    } else {
        assert(now.take(i) == before);
    }
}

/// The initial state is well formed for every program that fits in memory.
pub proof fn lemma_initial_wf(program: Seq<Symbol>)
    requires
        program.len() <= usize::MAX,
    ensures
        State::initial().wf(program),
{
    assert(State::initial().loop_stack =~= open_loops(program, 0).take(0));
}

/// A step leads from a well-formed state to a well-formed state.
pub proof fn lemma_step_wf(state: State, program: Seq<Symbol>, input: Option<u8>)
    requires
        state.wf(program),
    ensures
        state.step(program, input).wf(program),
{
    let next = state.step(program, input);
    if !state.effect(program, input).stops() {
        let before = open_loops(program, state.pointer);
        let depth = state.loop_stack.len() as int;
        assert(open_loops(program, state.pointer + 1) == match program[state.pointer] {
            Symbol::LoopStart => before.push(state.pointer),
            Symbol::LoopEnd => if before.len() > 0 {
                before.drop_last()
            } else {
                before
            },
            _ => before,
        });
        if state.dispatching() && program[state.pointer] == Symbol::LoopEnd
            && state.tape.curr() != 0 {
            lemma_open_loops(program, state.pointer, depth - 1);
        }
        assert(next.loop_stack == open_loops(program, next.pointer).take(
            next.loop_stack.len() as int,
        ));
    }
}

} // verus!
