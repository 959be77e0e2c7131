//! The operation set and the two dialect mapping tables.
//!
//! Both the tokenizer and the converter are defined against the spec
//! functions in this module, so the two components agree on the mapping by
//! construction. Source text is modelled as a sequence of bytes; the byte
//! values below are ASCII codes.

use vstd::prelude::*;

verus! {

/// The eight operations of the instruction set. A program is an ordered
/// sequence of these, immutable once produced.
#[derive(Clone, Copy, PartialEq, Eq, Structural, Debug)]
pub enum Op {
    ShiftLeft,
    ShiftRight,
    Increment,
    Decrement,
    Print,
    Input,
    LoopStart,
    LoopEnd,
}

/// The two source syntaxes the tokenizer understands. They map onto the
/// same operation set.
#[derive(Clone, Copy, PartialEq, Eq, Structural, Debug)]
pub enum Dialect {
    Symbol,
    Keyword,
}

/// The symbol dialect mapping: one character stands for one operation,
/// case-sensitively; every other character is skipped.
pub open spec fn symbol_op(b: u8) -> Option<Op> {
    if b == 62 {  // '>'
        Some(Op::ShiftRight)
    } else if b == 60 {  // '<'
        Some(Op::ShiftLeft)
    } else if b == 43 {  // '+'
        Some(Op::Increment)
    } else if b == 45 {  // '-'
        Some(Op::Decrement)
    } else if b == 46 {  // '.'
        Some(Op::Print)
    } else if b == 44 {  // ','
        Some(Op::Input)
    } else if b == 91 {  // '['
        Some(Op::LoopStart)
    } else if b == 93 {  // ']'
        Some(Op::LoopEnd)
    } else {
        None
    }
}

/// The keyword dialect mapping: the literal byte sequence that writes each
/// operation.
pub open spec fn keyword_bytes(op: Op) -> Seq<u8> {
    match op {
        Op::ShiftLeft => seq![102u8, 110u8, 111u8, 114u8, 100u8],  // "fnord"
        Op::ShiftRight => seq![107u8, 97u8, 108u8, 108u8, 105u8, 115u8, 116u8, 105u8],  // "kallisti"
        Op::Increment => seq![53u8],  // "5"
        Op::Decrement => seq![104u8, 97u8, 105u8, 108u8],  // "hail"
        Op::Print => seq![112u8, 105u8, 110u8, 101u8, 97u8, 108u8],  // "pineal"
        Op::Input => seq![99u8, 104u8, 97u8, 111u8, 115u8],  // "chaos"
        Op::LoopStart => seq![50u8, 51u8],  // "23"
        Op::LoopEnd => seq![101u8, 114u8, 105u8, 115u8],  // "eris"
    }
}

/// Which operation's keyword begins at the front of `s`, if any.
///
/// Matching is literal, case-sensitive and anchored at the cursor, not
/// word-boundary aware: a keyword embedded inside a longer unrelated word is
/// still matched. The keywords' first bytes are pairwise distinct, so at
/// most one branch can hold.
pub open spec fn keyword_match(s: Seq<u8>) -> Option<Op> {
    if s.len() >= 5 && s[0] == 102 && s[1] == 110 && s[2] == 111 && s[3] == 114 && s[4]
        == 100 {  // "fnord"
        Some(Op::ShiftLeft)
    } else if s.len() >= 8 && s[0] == 107 && s[1] == 97 && s[2] == 108 && s[3] == 108 && s[4]
        == 105 && s[5] == 115 && s[6] == 116 && s[7] == 105 {  // "kallisti"
        Some(Op::ShiftRight)
    } else if s.len() >= 6 && s[0] == 112 && s[1] == 105 && s[2] == 110 && s[3] == 101 && s[4]
        == 97 && s[5] == 108 {  // "pineal"
        Some(Op::Print)
    } else if s.len() >= 5 && s[0] == 99 && s[1] == 104 && s[2] == 97 && s[3] == 111 && s[4]
        == 115 {  // "chaos"
        Some(Op::Input)
    } else if s.len() >= 2 && s[0] == 50 && s[1] == 51 {  // "23"
        Some(Op::LoopStart)
    } else if s.len() >= 1 && s[0] == 53 {  // "5"
        Some(Op::Increment)
    } else if s.len() >= 4 && s[0] == 104 && s[1] == 97 && s[2] == 105 && s[3] == 108 {  // "hail"
        Some(Op::Decrement)
    } else if s.len() >= 4 && s[0] == 101 && s[1] == 114 && s[2] == 105 && s[3] == 115 {  // "eris"
        Some(Op::LoopEnd)
    } else {
        None
    }
}

/// A matched keyword is never empty and never longer than the rest of the
/// source, so a scan that consumes it makes progress.
pub proof fn lemma_keyword_match_len(s: Seq<u8>)
    ensures
        keyword_match(s) matches Some(op) ==> 1 <= keyword_bytes(op).len() <= s.len(),
{
}

} // verus!
