use vstd::prelude::*;
use crate::parser::parser::{Located, Location};

verus! {

/// What went wrong.
#[derive(Debug, Clone, Copy, PartialEq, Eq, Structural)]
pub enum ErrorKind {
    /// The text does not follow the grammar.
    ParseError,
    /// A contract, block or constant name is declared twice.
    NameAlreadyUsed,
    /// An opcode, constant, block, contract, field, function or compile variable that is
    /// referred to is not declared.
    UnknownName,
    /// The attribute's name is not one that the language has.
    UnknownAttribute,
    /// The attribute may not stand where it does.
    InvalidAttributePlacement,
    /// The attribute's argument is missing or has the wrong form.
    InvalidAttributeArg,
    /// `assume` or `clear_assume` names an opcode whose value cannot be assumed.
    AssumableOpcodeRequired,
    /// A constant of more than 31 bytes, or a push of more than 32.
    ConstantTooLarge,
    /// A push that fills the word from its start is given the place or the size of a
    /// block, or a concatenation.
    InvalidPushArg,
    /// The main contract, or the main block of a contract, does not exist.
    MissingMain,
    /// Two blocks of a contract are marked as main, or two as last.
    MultiplePins,
    /// `*` refers to an abstract block.
    StarOnAbstract,
    /// `&` refers to a block that is not abstract.
    EspOnConcrete,
    /// A block that is not abstract would be laid out a second time.
    StarTwice,
    /// `*` stands inside an abstract block.
    StarInsideAbstract,
    /// A block that is pinned as the first or the last of its contract is referred to by
    /// `*` or `&`, so that it would be laid out inside another block.
    PinnedBlockReferenced,
    /// Blocks refer to each other in a cycle.
    RecursiveBlocks,
    /// Contracts refer to each other in a cycle.
    RecursiveContracts,
    /// A program counter or a size does not fit the two bytes reserved for it.
    HoleOverflow,
}

/// An error of the compiler: its kind and, where it comes from one node of the parse
/// tree, the span of that node.
#[derive(Debug, Clone, Copy, PartialEq, Eq, Structural)]
pub struct CompileError {
    pub kind: ErrorKind,
    pub location: Option<Location>,
}

/// An error that belongs to no span of the source.
pub fn new_generic_error(kind: ErrorKind) -> (res: CompileError)
    ensures
        res == (CompileError { kind, location: None }),
{
    CompileError { kind, location: None }
}

/// An error at the span of `located`.
pub fn new_error_from_located<T>(located: &Located<T>, kind: ErrorKind) -> (res: CompileError)
    ensures
        res == (CompileError { kind, location: Some(located.location) }),
{
    new_error_from_location(&located.location, kind)
}

/// An error at `location`.
pub fn new_error_from_location(location: &Location, kind: ErrorKind) -> (res: CompileError)
    ensures
        res == (CompileError { kind, location: Some(*location) }),
{
    CompileError { kind, location: Some(*location) }
}

} // verus!
