//! The tokenizer: source text plus a dialect selector become an ordered
//! operation sequence, validated for bracket balance.
//!
//! Scanning never fails: unrecognized input is silently skipped in both
//! dialects. What can fail is the structural validation that follows the
//! scan: a `LoopEnd` with no open `LoopStart`, or a `LoopStart` that is
//! never closed, is reported as a [`StructuralError`] carrying the source
//! position of the offending token, so that an imbalance is caught before
//! execution rather than during it.

use crate::ops::{keyword_bytes, keyword_match, lemma_keyword_match_len, symbol_op, Dialect, Op};
use vstd::prelude::*;

verus! {

/// A bracket-balance violation found at tokenize time. `position` is the
/// byte offset in the source text where the unmatched token starts: the
/// offset of an unmatched `LoopEnd`, or of the innermost unclosed
/// `LoopStart`.
#[derive(Clone, Copy, PartialEq, Eq, Structural, Debug)]
pub struct StructuralError {
    pub position: usize,
}

/// The tokens of symbol-dialect source `s`, each operation paired with
/// the source offset of the character that wrote it; offsets are counted
/// from `base`. One character maps to one operation and every other
/// character is skipped.
pub open spec fn symbol_tokens(s: Seq<u8>, base: int) -> Seq<(Op, int)>
    decreases s.len(),
{
    if s.len() == 0 {
        Seq::empty()
    } else {
        match symbol_op(s[0]) {
            Some(op) => seq![(op, base)] + symbol_tokens(s.skip(1), base + 1),
            None => symbol_tokens(s.skip(1), base + 1),
        }
    }
}

/// The tokens of keyword-dialect source `s`, each operation paired with
/// the source offset where its keyword starts; offsets are counted from
/// `base`. The source is scanned with a cursor: a keyword match emits its
/// operation and advances the cursor past the keyword, any other byte is
/// skipped.
pub open spec fn keyword_tokens(s: Seq<u8>, base: int) -> Seq<(Op, int)>
    decreases s.len(),
    via keyword_tokens_decreases
{
    if s.len() == 0 {
        Seq::empty()
    } else {
        match keyword_match(s) {
            Some(op) => seq![(op, base)] + keyword_tokens(
                s.skip(keyword_bytes(op).len() as int),
                base + keyword_bytes(op).len(),
            ),
            None => keyword_tokens(s.skip(1), base + 1),
        }
    }
}

#[via_fn]
proof fn keyword_tokens_decreases(s: Seq<u8>, base: int) {
    lemma_keyword_match_len(s);
}

/// The tokens of source `s` under the chosen dialect, with their source
/// offsets.
pub open spec fn tokens_of(s: Seq<u8>, dialect: Dialect) -> Seq<(Op, int)> {
    match dialect {
        Dialect::Symbol => symbol_tokens(s, 0),
        Dialect::Keyword => keyword_tokens(s, 0),
    }
}

/// The operation sequence of source `s` under the chosen dialect: the
/// tokens without their positions.
pub open spec fn ops_of(s: Seq<u8>, dialect: Dialect) -> Seq<Op> {
    Seq::new(tokens_of(s, dialect).len(), |i: int| tokens_of(s, dialect)[i].0)
}

/// One pass over a token sequence that matches brackets with a stack of
/// the open `LoopStart` positions. `Err` carries the source position of
/// the first `LoopEnd` found with no open loop, or, failing that, of the
/// innermost `LoopStart` still open at the end.
pub open spec fn bracket_scan(ts: Seq<(Op, int)>, open_at: Seq<int>) -> Result<(), int>
    decreases ts.len(),
{
    if ts.len() == 0 {
        if open_at.len() == 0 {
            Ok(())
        } else {
            Err(open_at.last())
        }
    } else if ts[0].0 is LoopStart {
        bracket_scan(ts.skip(1), open_at.push(ts[0].1))
    } else if ts[0].0 is LoopEnd {
        if open_at.len() == 0 {
            Err(ts[0].1)
        } else {
            bracket_scan(ts.skip(1), open_at.drop_last())
        }
    } else {
        bracket_scan(ts.skip(1), open_at)
    }
}

/// The outcome of bracket validation for source `s` under the chosen
/// dialect.
pub open spec fn balance_result(s: Seq<u8>, dialect: Dialect) -> Result<(), int> {
    bracket_scan(tokens_of(s, dialect), Seq::empty())
}

/// Whether the brackets of source `s` are balanced under the chosen
/// dialect.
pub open spec fn balanced(s: Seq<u8>, dialect: Dialect) -> bool {
    balance_result(s, dialect) is Ok
}

/// The operations of `ops` paired with the positions of `pos`, as one
/// token sequence.
pub open spec fn zip_tokens(ops: Seq<Op>, pos: Seq<usize>) -> Seq<(Op, int)>
    recommends
        ops.len() == pos.len(),
{
    Seq::new(ops.len(), |i: int| (ops[i], pos[i] as int))
}

/// The positions of `s`, viewed as mathematical integers.
pub open spec fn positions_as_int(s: Seq<usize>) -> Seq<int> {
    Seq::new(s.len(), |i: int| s[i] as int)
}

/// Unfolding `symbol_tokens` at cursor `i` of the whole source.
proof fn lemma_symbol_tokens_step(s: Seq<u8>, i: int)
    requires
        0 <= i < s.len(),
    ensures
        symbol_op(s[i]) matches Some(op) ==> symbol_tokens(s.skip(i), i) == seq![(op, i)]
            + symbol_tokens(s.skip(i + 1), i + 1),
        symbol_op(s[i]) is None ==> symbol_tokens(s.skip(i), i) == symbol_tokens(
            s.skip(i + 1),
            i + 1,
        ),
{
    assert(s.skip(i)[0] == s[i]);
    assert(s.skip(i).skip(1) =~= s.skip(i + 1));
}

/// Unfolding `keyword_tokens` at cursor `i` of the whole source.
proof fn lemma_keyword_tokens_step(s: Seq<u8>, i: int)
    requires
        0 <= i < s.len(),
    ensures
        keyword_match(s.skip(i)) matches Some(op) ==> keyword_tokens(s.skip(i), i) == seq![
            (op, i),
        ] + keyword_tokens(
            s.skip(i + keyword_bytes(op).len()),
            i + keyword_bytes(op).len(),
        ),
        keyword_match(s.skip(i)) is None ==> keyword_tokens(s.skip(i), i) == keyword_tokens(
            s.skip(i + 1),
            i + 1,
        ),
{
    lemma_keyword_match_len(s.skip(i));
    match keyword_match(s.skip(i)) {
        Some(op) => {
            let k = keyword_bytes(op).len() as int;
            assert(s.skip(i).skip(k) =~= s.skip(i + k));
        },
        None => {
            assert(s.skip(i).skip(1) =~= s.skip(i + 1));
        },
    }
}

/// The symbol dialect mapping, executably: which operation the character
/// `b` writes, if any.
fn symbol_step(b: u8) -> (r: Option<Op>)
    ensures
        r == symbol_op(b),
{
    if b == 62 {  // '>'
        Some(Op::ShiftRight)
    } else if b == 60 {  // '<'
        Some(Op::ShiftLeft)
    } else if b == 43 {  // '+'
        Some(Op::Increment)
    } else if b == 45 {  // '-'
        Some(Op::Decrement)
    } else if b == 46 {  // '.'
        Some(Op::Print)
    } else if b == 44 {  // ','
        Some(Op::Input)
    } else if b == 91 {  // '['
        Some(Op::LoopStart)
    } else if b == 93 {  // ']'
        Some(Op::LoopEnd)
    } else {
        None
    }
}

/// The keyword dialect mapping, executably: the operation whose keyword
/// starts at cursor `i` of `s`, together with the cursor position just
/// past the keyword, if any keyword matches there.
fn keyword_step(s: &[u8], i: usize) -> (r: Option<(Op, usize)>)
    requires
        i < s@.len(),
    ensures
        r matches Some(oj) ==> keyword_match(s@.skip(i as int)) == Some(oj.0) && oj.1 == i
            + keyword_bytes(oj.0).len() && i < oj.1 <= s@.len(),
        r is None ==> keyword_match(s@.skip(i as int)) is None,
{
    let n = s.len();
    let b = s[i];
    let r: Option<(Op, usize)> = if b == 102 {  // 'f': "fnord"
        if n - i >= 5 && s[i + 1] == 110 && s[i + 2] == 111 && s[i + 3] == 114 && s[i + 4]
            == 100 {
            Some((Op::ShiftLeft, i + 5))
        } else {
            None
        }
    } else if b == 107 {  // 'k': "kallisti"
        if n - i >= 8 && s[i + 1] == 97 && s[i + 2] == 108 && s[i + 3] == 108 && s[i + 4] == 105
            && s[i + 5] == 115 && s[i + 6] == 116 && s[i + 7] == 105 {
            Some((Op::ShiftRight, i + 8))
        } else {
            None
        }
    } else if b == 112 {  // 'p': "pineal"
        if n - i >= 6 && s[i + 1] == 105 && s[i + 2] == 110 && s[i + 3] == 101 && s[i + 4] == 97
            && s[i + 5] == 108 {
            Some((Op::Print, i + 6))
        } else {
            None
        }
    } else if b == 99 {  // 'c': "chaos"
        if n - i >= 5 && s[i + 1] == 104 && s[i + 2] == 97 && s[i + 3] == 111 && s[i + 4]
            == 115 {
            Some((Op::Input, i + 5))
        } else {
            None
        }
    } else if b == 50 {  // '2': "23"
        if n - i >= 2 && s[i + 1] == 51 {
            Some((Op::LoopStart, i + 2))
        } else {
            None
        }
    } else if b == 53 {  // '5': "5"
        Some((Op::Increment, i + 1))
    } else if b == 104 {  // 'h': "hail"
        if n - i >= 4 && s[i + 1] == 97 && s[i + 2] == 105 && s[i + 3] == 108 {
            Some((Op::Decrement, i + 4))
        } else {
            None
        }
    } else if b == 101 {  // 'e': "eris"
        if n - i >= 4 && s[i + 1] == 114 && s[i + 2] == 105 && s[i + 3] == 115 {
            Some((Op::LoopEnd, i + 4))
        } else {
            None
        }
    } else {
        None
    };
    proof {
        let sk = s@.skip(i as int);
        assert(sk.len() == s@.len() - i);
        assert(forall|j: int| 0 <= j < sk.len() ==> sk[j] == s@[i + j]);
    }
    r
}

/// Scan `source` under `dialect` into its operations and their source
/// positions.
fn scan(source: &[u8], dialect: Dialect) -> (r: (Vec<Op>, Vec<usize>))
    ensures
        r.0@.len() == r.1@.len(),
        zip_tokens(r.0@, r.1@) == tokens_of(source@, dialect),
{
    let mut ops: Vec<Op> = Vec::new();
    let mut pos: Vec<usize> = Vec::new();
    let n = source.len();
    let mut i: usize = 0;
    proof {
        assert(source@.skip(0) =~= source@);
        assert(zip_tokens(ops@, pos@) =~= Seq::<(Op, int)>::empty());
        assert(Seq::<(Op, int)>::empty() + symbol_tokens(source@, 0) =~= symbol_tokens(
            source@,
            0,
        ));
        assert(Seq::<(Op, int)>::empty() + keyword_tokens(source@, 0) =~= keyword_tokens(
            source@,
            0,
        ));
    }
    match dialect {
        Dialect::Symbol => {
            while i < n
                invariant
                    i <= n,
                    n == source@.len(),
                    ops@.len() == pos@.len(),
                    zip_tokens(ops@, pos@) + symbol_tokens(source@.skip(i as int), i as int)
                        == symbol_tokens(source@, 0),
                decreases n - i,
            {
                let ghost prev_zip = zip_tokens(ops@, pos@);
                proof {
                    lemma_symbol_tokens_step(source@, i as int);
                }
                match symbol_step(source[i]) {
                    Some(op) => {
                        ops.push(op);
                        pos.push(i);
                        proof {
                            assert(zip_tokens(ops@, pos@) =~= prev_zip.push(
                                (op, i as int),
                            ));
                            assert(prev_zip.push((op, i as int)) =~= prev_zip + seq![
                                (op, i as int),
                            ]);
                            assert((prev_zip + seq![(op, i as int)]) + symbol_tokens(
                                source@.skip(i + 1),
                                i + 1,
                            ) =~= prev_zip + (seq![(op, i as int)] + symbol_tokens(
                                source@.skip(i + 1),
                                i + 1,
                            )));
                        }
                    },
                    None => {},
                }
                i = i + 1;
            }
            proof {
                assert(source@.skip(n as int) =~= Seq::<u8>::empty());
                assert(zip_tokens(ops@, pos@) + symbol_tokens(source@.skip(n as int), n as int)
                    =~= zip_tokens(ops@, pos@));
            }
        },
        Dialect::Keyword => {
            while i < n
                invariant
                    i <= n,
                    n == source@.len(),
                    ops@.len() == pos@.len(),
                    zip_tokens(ops@, pos@) + keyword_tokens(source@.skip(i as int), i as int)
                        == keyword_tokens(source@, 0),
                decreases n - i,
            {
                let ghost prev_zip = zip_tokens(ops@, pos@);
                proof {
                    lemma_keyword_tokens_step(source@, i as int);
                }
                match keyword_step(source, i) {
                    Some((op, next)) => {
                        ops.push(op);
                        pos.push(i);
                        proof {
                            assert(zip_tokens(ops@, pos@) =~= prev_zip.push(
                                (op, i as int),
                            ));
                            assert(prev_zip.push((op, i as int)) =~= prev_zip + seq![
                                (op, i as int),
                            ]);
                            assert((prev_zip + seq![(op, i as int)]) + keyword_tokens(
                                source@.skip(next as int),
                                next as int,
                            ) =~= prev_zip + (seq![(op, i as int)] + keyword_tokens(
                                source@.skip(next as int),
                                next as int,
                            )));
                        }
                        i = next;
                    },
                    None => {
                        i = i + 1;
                    },
                }
            }
            proof {
                assert(source@.skip(n as int) =~= Seq::<u8>::empty());
                assert(zip_tokens(ops@, pos@) + keyword_tokens(source@.skip(n as int), n as int)
                    =~= zip_tokens(ops@, pos@));
            }
        },
    }
    (ops, pos)
}

/// Validate bracket balance over scanned tokens. `Err` carries the source
/// position of the first unmatched `LoopEnd`, or of the innermost
/// unclosed `LoopStart`.
fn check_balance(ops: &Vec<Op>, pos: &Vec<usize>) -> (r: Result<(), StructuralError>)
    requires
        ops@.len() == pos@.len(),
    ensures
        r is Ok <==> bracket_scan(zip_tokens(ops@, pos@), Seq::empty()) is Ok,
        r matches Err(e) ==> bracket_scan(zip_tokens(ops@, pos@), Seq::empty()) == Err::<
            (),
            int,
        >(e.position as int),
{
    let ghost zip = zip_tokens(ops@, pos@);
    let mut open_at: Vec<usize> = Vec::new();
    let n = ops.len();
    let mut k: usize = 0;
    proof {
        assert(zip.skip(0) =~= zip);
        assert(positions_as_int(open_at@) =~= Seq::<int>::empty());
    }
    while k < n
        invariant
            k <= n,
            n == ops@.len(),
            ops@.len() == pos@.len(),
            zip == zip_tokens(ops@, pos@),
            bracket_scan(zip.skip(k as int), positions_as_int(open_at@)) == bracket_scan(
                zip,
                Seq::empty(),
            ),
        decreases n - k,
    {
        let ghost prev_open = positions_as_int(open_at@);
        proof {
            assert(zip.skip(k as int)[0] == zip[k as int]);
            assert(zip.skip(k as int).skip(1) =~= zip.skip(k as int + 1));
        }
        let op = ops[k];
        match op {
            Op::LoopStart => {
                open_at.push(pos[k]);
                proof {
                    assert(positions_as_int(open_at@) =~= prev_open.push(pos@[k as int] as int));
                }
            },
            Op::LoopEnd => {
                if open_at.len() == 0 {
                    return Err(StructuralError { position: pos[k] });
                } else {
                    open_at.pop();
                    proof {
                        assert(positions_as_int(open_at@) =~= prev_open.drop_last());
                    }
                }
            },
            _ => {},
        }
        k = k + 1;
    }
    proof {
        assert(zip.skip(n as int) =~= Seq::<(Op, int)>::empty());
    }
    if open_at.len() == 0 {
        Ok(())
    } else {
        let ghost open = positions_as_int(open_at@);
        proof {
            assert(open.last() == open_at@.last() as int);
        }
        Err(StructuralError { position: open_at[open_at.len() - 1] })
    }
}

/// Tokenize `source` under `dialect`.
///
/// Scanning itself never fails; the result is `Ok` exactly when the
/// scanned brackets balance, and then holds the full operation sequence
/// of the source. Otherwise the result is the [`StructuralError`] whose
/// position the bracket validation assigns to the imbalance.
pub fn tokenize(source: &[u8], dialect: Dialect) -> (r: Result<Vec<Op>, StructuralError>)
    ensures
        r is Ok <==> balanced(source@, dialect),
        r matches Ok(prog) ==> prog@ == ops_of(source@, dialect),
        r matches Err(e) ==> balance_result(source@, dialect) == Err::<(), int>(
            e.position as int,
        ),
{
    let (ops, pos) = scan(source, dialect);
    match check_balance(&ops, &pos) {
        Ok(()) => {
            proof {
                assert(ops@ =~= ops_of(source@, dialect));
            }
            Ok(ops)
        },
        Err(e) => Err(e),
    }
}

} // verus!
