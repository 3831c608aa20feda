//! The instruction alphabet and the loader that scans source text into a program.

use vstd::prelude::*;

verus! {

/// One instruction of the language.
#[derive(Clone, Copy, Debug, PartialEq, Eq, Structural)]
pub enum Symbol {
    /// `+`: add one to the current cell.
    IncrementCell,
    /// `-`: subtract one from the current cell.
    DecrementCell,
    /// `<`: move the data pointer one cell to the left.
    MoveLeft,
    /// `>`: move the data pointer one cell to the right.
    MoveRight,
    /// `.`: write the current cell to the sink.
    Output,
    /// `,`: read one byte from the source into the current cell.
    Input,
    /// `[`: enter the loop if the current cell is nonzero, else skip it.
    LoopStart,
    /// `]`: go back to the loop's start if the current cell is nonzero.
    LoopEnd,
}

/// The symbol that a character stands for, if it is one of the eight glyphs.
pub open spec fn glyph(c: char) -> Option<Symbol> {
    if c == '+' {
        Some(Symbol::IncrementCell)
    } else if c == '-' {
        Some(Symbol::DecrementCell)
    } else if c == '<' {
        Some(Symbol::MoveLeft)
    } else if c == '>' {
        Some(Symbol::MoveRight)
    } else if c == '.' {
        Some(Symbol::Output)
    } else if c == ',' {
        Some(Symbol::Input)
    } else if c == '[' {
        Some(Symbol::LoopStart)
    } else if c == ']' {
        Some(Symbol::LoopEnd)
    } else {
        None
    }
}

impl Symbol {
    /// Recognises one character of source text.
    pub fn from_char(c: char) -> (symbol: Option<Symbol>)
        ensures
            symbol == glyph(c),
    {
        match c {
            '+' => Some(Symbol::IncrementCell),
            '-' => Some(Symbol::DecrementCell),
            '<' => Some(Symbol::MoveLeft),
            '>' => Some(Symbol::MoveRight),
            '.' => Some(Symbol::Output),
            ',' => Some(Symbol::Input),
            '[' => Some(Symbol::LoopStart),
            ']' => Some(Symbol::LoopEnd),
            _ => None,
        }
    }
}

/// The program that a source text denotes: the symbols of its recognised
/// glyphs, in the order in which they stand. Every other character is a
/// comment and leaves no trace.
pub open spec fn program_of(source: Seq<char>) -> Seq<Symbol> {
    source.filter(|c: char| glyph(c) is Some).map_values(|c: char| glyph(c).unwrap())
}

/// Reading one more character appends its symbol, or nothing.
proof fn lemma_program_of_push(source: Seq<char>, c: char)
    ensures
        program_of(source.push(c)) == match glyph(c) {
            Some(symbol) => program_of(source).push(symbol),
            None => program_of(source),
        },
{
    let recognised = |c: char| glyph(c) is Some;
    let longer = source.push(c);
    reveal(Seq::filter);
    assert(longer.drop_last() == source);
    assert(longer.filter(recognised) == if recognised(c) {
        source.filter(recognised).push(c)
    } else {
        source.filter(recognised)
    });
}

/// Scans source text once and returns the program it denotes.
pub fn load(source: &str) -> (program: Vec<Symbol>)
    ensures
        program@ == program_of(source@),
{
    let mut program: Vec<Symbol> = Vec::new();
    for c in it: source.chars()
        invariant
            it.seq() == source@,
            program@ == program_of(source@.take(it.index())),
    {
        proof {
            assert(source@.take(it.index() + 1) == source@.take(it.index()).push(c));
            lemma_program_of_push(source@.take(it.index()), c);
        }
        match Symbol::from_char(c) {
            Some(symbol) => {
                program.push(symbol);
            },
            None => {},
        }
    }
    proof {
        assert(source@.take(source@.len() as int) == source@);
    }
    program
}

} // verus!
