//! The circular byte tape and its data pointer.

use vstd::prelude::*;

verus! {

/// Number of cells on the tape.
pub const TAPE_SIZE: usize = 0x7FFF;

/// The mathematical model of the tape: its cells and the position of the
/// data pointer.
pub struct Tape {
    /// The values of the cells, cell 0 first.
    pub cells: Seq<u8>,
    /// The position of the data pointer.
    pub index: int,
}

impl Tape {
    /// The tape has `TAPE_SIZE` cells and the data pointer selects one of them.
    pub open spec fn wf(self) -> bool {
        &&& self.cells.len() == TAPE_SIZE
        &&& 0 <= self.index < TAPE_SIZE
    }

    /// The tape before anything ran: every cell zero, data pointer at cell 0.
    pub open spec fn blank() -> Tape {
        Tape { cells: Seq::new(TAPE_SIZE as nat, |i: int| 0u8), index: 0 }
    }

    /// The value of the current cell.
    pub open spec fn curr(self) -> u8 {
        self.cells[self.index]
    }

    /// The tape with `byte` in the current cell.
    pub open spec fn store(self, byte: u8) -> Tape {
        Tape { cells: self.cells.update(self.index, byte), index: self.index }
    }

    /// The tape with `delta` added to the current cell, modulo 256.
    pub open spec fn bump(self, delta: int) -> Tape {
        self.store(((self.curr() + delta) % 256) as u8)
    }

    /// The tape with the data pointer moved by `delta` cells round the circle.
    pub open spec fn shift(self, delta: int) -> Tape {
        Tape { cells: self.cells, index: (self.index + delta) % (TAPE_SIZE as int) }
    }

    /// The current cell plus one, modulo 256.
    pub open spec fn incr(self) -> Tape {
        self.bump(1)
    }

    /// The current cell minus one, modulo 256.
    pub open spec fn decr(self) -> Tape {
        self.bump(-1)
    }

    /// The data pointer one cell to the left; from cell 0 to the last cell.
    pub open spec fn shl(self) -> Tape {
        self.shift(-1)
    }

    /// The data pointer one cell to the right; from the last cell to cell 0.
    pub open spec fn shr(self) -> Tape {
        self.shift(1)
    }
}

/// The tape of a running program: `TAPE_SIZE` byte cells in a circle and the
/// data pointer that selects the current one.
pub struct BrainfuckContext {
    tape: [u8; TAPE_SIZE],
    tape_index: usize,
}

impl View for BrainfuckContext {
    type V = Tape;

    closed spec fn view(&self) -> Tape {
        Tape { cells: self.tape@, index: self.tape_index as int }
    }
}

impl BrainfuckContext {
    #[verifier::type_invariant]
    spec fn inv(self) -> bool {
        self.tape_index < TAPE_SIZE
    }

    /// A blank tape.
    pub fn new() -> (context: BrainfuckContext)
        ensures
            context@ == Tape::blank(),
            context@.wf(),
    {
        let context = BrainfuckContext { tape: [0u8; TAPE_SIZE], tape_index: 0 };
        assert(context@.cells =~= Tape::blank().cells);
        context
    }

    /// Executes `<`.
    pub fn shl(&mut self)
        ensures
            final(self)@ == old(self)@.shl(),
            final(self)@.wf(),
    {
        proof {
            use_type_invariant(&*self);
        }
        if self.tape_index == 0 {
            self.tape_index = TAPE_SIZE - 1;
        } else {
            self.tape_index = self.tape_index - 1;
        }
    }

    /// Executes `>`.
    pub fn shr(&mut self)
        ensures
            final(self)@ == old(self)@.shr(),
            final(self)@.wf(),
    {
        proof {
            use_type_invariant(&*self);
        }
        if self.tape_index == TAPE_SIZE - 1 {
            self.tape_index = 0;
        } else {
            self.tape_index = self.tape_index + 1;
        }
    }

    /// Executes `+`.
    pub fn incr(&mut self)
        ensures
            final(self)@ == old(self)@.incr(),
            final(self)@.wf(),
    {
        proof {
            use_type_invariant(&*self);
        }
        self.tape[self.tape_index] = self.tape[self.tape_index].wrapping_add(1);
    }

    /// Executes `-`.
    pub fn decr(&mut self)
        ensures
            final(self)@ == old(self)@.decr(),
            final(self)@.wf(),
    {
        proof {
            use_type_invariant(&*self);
        }
        self.tape[self.tape_index] = self.tape[self.tape_index].wrapping_sub(1);
    }

    /// The value of the current cell.
    pub fn curr(&self) -> (value: u8)
        ensures
            value == self@.curr(),
            self@.wf(),
    {
        proof {
            use_type_invariant(self);
        }
        self.tape[self.tape_index]
    }

    /// The value of the cell at `at`, if the tape has such a cell.
    pub fn cell(&self, at: usize) -> (value: Option<u8>)
        ensures
            value == if at < TAPE_SIZE {
                Some(self@.cells[at as int])
            } else {
                None
            },
            self@.wf(),
    {
        proof {
            use_type_invariant(self);
        }
        if at < TAPE_SIZE {
            Some(self.tape[at])
        } else {
            None
        }
    }

    /// The position of the data pointer.
    pub fn index(&self) -> (index: usize)
        ensures
            index == self@.index,
            self@.wf(),
    {
        proof {
            use_type_invariant(self);
        }
        self.tape_index
    }

    /// Executes `,` with `byte` as the byte that the source delivered.
    pub fn read(&mut self, byte: u8)
        ensures
            final(self)@ == old(self)@.store(byte),
            final(self)@.wf(),
    {
        proof {
            use_type_invariant(&*self);
        }
        self.tape[self.tape_index] = byte;
    }
}

} // verus!
