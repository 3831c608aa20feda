//! The execution engine: one step at a time, with the bytes of the outside
//! world handed in and out by the caller.

use vstd::prelude::*;
use crate::semantics::{lemma_initial_wf, lemma_step_wf, Effect, State};
use crate::symbol::Symbol;
use crate::tape::BrainfuckContext;

verus! {

/// The positions on a loop stack, as mathematical integers.
spec fn positions(stack: Seq<usize>) -> Seq<int> {
    stack.map_values(|p: usize| p as int)
}

/// An engine that owns a program and runs it step by step.
///
/// The engine performs no I/O. A step that needs a byte of input takes it as
/// an argument, and a step that produces a byte of output returns it.
pub struct Engine {
    program: Vec<Symbol>,
    context: BrainfuckContext,
    pointer: usize,
    loop_stack: Vec<usize>,
    skip: usize,
}

impl View for Engine {
    type V = State;

    closed spec fn view(&self) -> State {
        State {
            tape: self.context@,
            pointer: self.pointer as int,
            loop_stack: positions(self.loop_stack@),
            skip: self.skip as int,
        }
    }
}

impl Engine {
    /// The program that the engine runs.
    pub closed spec fn program(self) -> Seq<Symbol> {
        self.program@
    }

    /// The engine is in a state that a run of its program passes through.
    /// `new` establishes this and `step` keeps it.
    pub open spec fn wf(self) -> bool {
        self@.wf(self.program())
    }

    /// An engine about to run `program` from its first instruction on a
    /// blank tape.
    pub fn new(program: Vec<Symbol>) -> (engine: Engine)
        ensures
            engine.program() == program@,
            engine@ == State::initial(),
            engine.wf(),
    {
        assert(program@.len() == program.len());
        let engine = Engine {
            program,
            context: BrainfuckContext::new(),
            pointer: 0,
            loop_stack: Vec::new(),
            skip: 0,
        };
        proof {
            assert(engine@.loop_stack =~= State::initial().loop_stack);
            lemma_initial_wf(engine.program@);
        }
        engine
    }

    /// The instruction pointer.
    pub fn pointer(&self) -> (pointer: usize)
        ensures
            pointer == self@.pointer,
    {
        self.pointer
    }

    /// The tape and its data pointer.
    pub fn context(&self) -> (context: &BrainfuckContext)
        ensures
            context@ == self@.tape,
    {
        &self.context
    }

    /// The number of loops that are open.
    pub fn depth(&self) -> (depth: usize)
        ensures
            depth == self@.loop_stack.len(),
    {
        self.loop_stack.len()
    }

    /// Zero in normal execution; while a loop is scanned past, the number of
    /// loops that the scan is inside of.
    pub fn skip_depth(&self) -> (skip: usize)
        ensures
            skip == self@.skip,
    {
        self.skip
    }

    /// What the next step will do, given the byte that the source offers,
    /// without doing it.
    pub fn effect(&self, input: Option<u8>) -> (effect: Effect)
        ensures
            effect == self@.effect(self.program(), input),
    {
        if self.pointer >= self.program.len() {
            Effect::Halted
        } else if self.skip != 0 {
            Effect::Advanced
        } else {
            match self.program[self.pointer] {
                Symbol::Output => Effect::Write(self.context.curr()),
                Symbol::Input => match input {
                    Some(_) => Effect::Read,
                    None => Effect::AwaitingInput,
                },
                Symbol::LoopEnd => if self.loop_stack.len() == 0 {
                    Effect::UnmatchedLoopEnd { position: self.pointer }
                } else {
                    Effect::Advanced
                },
                _ => Effect::Advanced,
            }
        }
    }

    /// Runs one step, given the byte that the source offers, and says what
    /// it did.
    ///
    /// The offered byte is consumed exactly when the effect is `Read`. A
    /// byte to be written comes back in `Write`. The three effects that stop
    /// a run leave the engine as it was.
    pub fn step(&mut self, input: Option<u8>) -> (effect: Effect)
        requires
            old(self).wf(),
        ensures
            effect == old(self)@.effect(old(self).program(), input),
            final(self)@ == old(self)@.step(old(self).program(), input),
            final(self).program() == old(self).program(),
            final(self).wf(),
    {
        let effect = self.effect(input);
        match effect {
            Effect::AwaitingInput | Effect::Halted | Effect::UnmatchedLoopEnd { .. } => {
                return effect;
            },
            _ => {},
        }
        let ghost before = self@;
        proof {
            lemma_step_wf(before, self.program@, input);
        }
        let at: usize = self.pointer;
        assert(at < self.program.len());
        let mut next: usize = at + 1;
        if self.skip != 0 {
            match self.program[at] {
                Symbol::LoopStart => {
                    self.skip = self.skip + 1;
                },
                Symbol::LoopEnd => {
                    self.skip = self.skip - 1;
                },
                _ => {},
            }
        } else {
            match self.program[at] {
                Symbol::IncrementCell => {
                    self.context.incr();
                },
                Symbol::DecrementCell => {
                    self.context.decr();
                },
                Symbol::MoveLeft => {
                    self.context.shl();
                },
                Symbol::MoveRight => {
                    self.context.shr();
                },
                Symbol::Output => {},
                Symbol::Input => {
                    if let Some(byte) = input {
                        self.context.read(byte);
                    }
                },
                Symbol::LoopStart => {
                    if self.context.curr() != 0 {
                        self.loop_stack.push(at);
                        assert(positions(self.loop_stack@) =~= before.loop_stack.push(at as int));
                    } else {
                        self.skip = 1;
                    }
                },
                Symbol::LoopEnd => {
                    if let Some(start) = self.loop_stack.pop() {
                        assert(positions(self.loop_stack@) =~= before.loop_stack.drop_last());
                        if self.context.curr() != 0 {
                            next = start;
                        }
                    }
                },
            }
        }
        self.pointer = next;
        effect
    }
}

} // verus!
