//! Whole runs of a program over a byte source and a byte sink held in memory.

use vstd::prelude::*;
use crate::engine::Engine;
use crate::semantics::{Effect, State};
use crate::symbol::{load, program_of, Symbol};

verus! {

/// Why a run ended without reaching the end of its program.
#[derive(Clone, Copy, Debug, PartialEq, Eq, Structural)]
pub enum Fault {
    /// The instruction at `position` closes a loop while none is open.
    UnmatchedLoopEnd { position: usize },
    /// The instruction at `position` asks for a byte and the source has none left.
    InputExhausted { position: usize },
    /// The step budget was spent while the program was still running.
    StepLimit,
}

/// A run part-way: the state of the engine, how many bytes of the source it
/// has consumed and what it has written to the sink.
pub struct Run {
    /// The state of the engine.
    pub state: State,
    /// The number of bytes of the source that were consumed.
    pub consumed: int,
    /// The bytes that were written to the sink, first first.
    pub output: Seq<u8>,
}

impl Run {
    /// The run before its first step.
    pub open spec fn start() -> Run {
        Run { state: State::initial(), consumed: 0, output: Seq::empty() }
    }

    /// The byte that the source offers next, if it has one left.
    pub open spec fn offered(self, input: Seq<u8>) -> Option<u8> {
        if 0 <= self.consumed < input.len() {
            Some(input[self.consumed])
        } else {
            None
        }
    }

    /// The effect of the next step.
    pub open spec fn effect(self, program: Seq<Symbol>, input: Seq<u8>) -> Effect {
        self.state.effect(program, self.offered(input))
    }

    /// The run one step later. A run that has stopped stays as it is.
    pub open spec fn next(self, program: Seq<Symbol>, input: Seq<u8>) -> Run {
        let effect = self.effect(program, input);
        Run {
            state: self.state.step(program, self.offered(input)),
            consumed: if effect is Read {
                self.consumed + 1
            } else {
                self.consumed
            },
            output: if let Effect::Write(byte) = effect {
                self.output.push(byte)
            } else {
                self.output
            },
        }
    }

    /// The run `steps` steps later, or where it stopped if it stopped before.
    pub open spec fn after(self, program: Seq<Symbol>, input: Seq<u8>, steps: nat) -> Run
        decreases steps,
    {
        if steps == 0 {
            self
        } else {
            self.after(program, input, (steps - 1) as nat).next(program, input)
        }
    }

    /// What holds of every run of `program` on `input`, at every step.
    pub open spec fn wf(self, program: Seq<Symbol>, input: Seq<u8>) -> bool {
        &&& self.state.wf(program)
        &&& 0 <= self.consumed <= input.len()
    }

    /// How the run has ended, if this is where it is cut off.
    pub open spec fn outcome(self, program: Seq<Symbol>, input: Seq<u8>) -> Result<(), Fault> {
        match self.effect(program, input) {
            Effect::Halted => Ok(()),
            Effect::UnmatchedLoopEnd { position } => Err(Fault::UnmatchedLoopEnd { position }),
            Effect::AwaitingInput => Err(
                Fault::InputExhausted { position: self.state.pointer as usize },
            ),
            _ => Err(Fault::StepLimit),
        }
    }
}

/// The run of `program` on `input` after `steps` steps, or where it stopped
/// if it stopped before.
pub open spec fn run(program: Seq<Symbol>, input: Seq<u8>, steps: nat) -> Run {
    Run::start().after(program, input, steps)
}

/// A run that has stopped stays where it is, however many steps are granted.
pub proof fn lemma_stopped_stays(run: Run, program: Seq<Symbol>, input: Seq<u8>, steps: nat)
    requires
        run.effect(program, input).stops(),
    ensures
        run.after(program, input, steps) == run,
    decreases steps,
{
    if steps > 0 {
        lemma_stopped_stays(run, program, input, (steps - 1) as nat);
    }
}

/// Running `first` steps and then `then` steps is running `first + then` steps.
pub proof fn lemma_after_adds(
    run: Run,
    program: Seq<Symbol>,
    input: Seq<u8>,
    first: nat,
    then: nat,
)
    ensures
        run.after(program, input, first).after(program, input, then) == run.after(
            program,
            input,
            first + then,
        ),
    decreases then,
{
    if then > 0 {
        lemma_after_adds(run, program, input, first, (then - 1) as nat);
    }
}

/// Runs `program` for at most `max_steps` steps, reading from `input` and
/// appending what it writes to `output`.
///
/// The run ends with `Ok` when the instruction pointer passes the last
/// instruction. It ends with a fault at a loop end that closes no loop, at an
/// input when `input` is used up, and when `max_steps` steps are done and the
/// program could go on.
pub fn execute(program: Vec<Symbol>, input: &[u8], output: &mut Vec<u8>, max_steps: u64) -> (result:
    Result<(), Fault>)
    ensures
        final(output)@ == old(output)@ + run(program@, input@, max_steps as nat).output,
        result == run(program@, input@, max_steps as nat).outcome(program@, input@),
{
    let ghost symbols = program@;
    let mut engine = Engine::new(program);
    let mut consumed: usize = 0;
    let mut steps: u64 = 0;
    loop
        invariant
            symbols == program@,
            engine.wf(),
            engine.program() == symbols,
            steps <= max_steps,
            consumed <= input.len(),
            run(symbols, input@, steps as nat) == (Run {
                state: engine@,
                consumed: consumed as int,
                output: run(symbols, input@, steps as nat).output,
            }),
            output@ == old(output)@ + run(symbols, input@, steps as nat).output,
        decreases max_steps - steps,
    {
        let ghost here = run(symbols, input@, steps as nat);
        let offered = if consumed < input.len() {
            Some(input[consumed])
        } else {
            None
        };
        assert(offered == here.offered(input@));
        if steps == max_steps {
            return match engine.effect(offered) {
                Effect::Halted => Ok(()),
                Effect::UnmatchedLoopEnd { position } => Err(Fault::UnmatchedLoopEnd { position }),
                Effect::AwaitingInput => Err(Fault::InputExhausted { position: engine.pointer() }),
                _ => Err(Fault::StepLimit),
            };
        }
        let effect = engine.step(offered);
        proof {
            if effect.stops() {
                lemma_stopped_stays(here, symbols, input@, (max_steps - steps) as nat);
                lemma_after_adds(
                    Run::start(),
                    symbols,
                    input@,
                    steps as nat,
                    (max_steps - steps) as nat,
                );
            }
            assert(run(symbols, input@, (steps + 1) as nat) == here.next(symbols, input@));
        }
        match effect {
            Effect::Halted => {
                return Ok(());
            },
            Effect::UnmatchedLoopEnd { position } => {
                return Err(Fault::UnmatchedLoopEnd { position });
            },
            Effect::AwaitingInput => {
                return Err(Fault::InputExhausted { position: engine.pointer() });
            },
            Effect::Read => {
                consumed = consumed + 1;
            },
            Effect::Write(byte) => {
                output.push(byte);
                assert(output@ == old(output)@ + here.output.push(byte));
            },
            Effect::Advanced => {},
        }
        steps = steps + 1;
    }
}

/// Loads `source` and runs it for at most `max_steps` steps, reading from
/// `input` and appending what it writes to `output`.
pub fn brainfuck(source: &str, input: &[u8], output: &mut Vec<u8>, max_steps: u64) -> (result:
    Result<(), Fault>)
    ensures
        final(output)@ == old(output)@ + run(
            program_of(source@),
            input@,
            max_steps as nat,
        ).output,
        result == run(program_of(source@), input@, max_steps as nat).outcome(
            program_of(source@),
            input@,
        ),
{
    execute(load(source), input, output, max_steps)
}

} // verus!
