//! The converter: symbol-dialect source text rewritten as keyword-dialect
//! text by literal character-to-keyword substitution, and the proof that
//! the rewrite preserves the program.
//!
//! The converter depends only on the mapping table in [`crate::ops`],
//! which it shares with the tokenizer; [`lemma_dialect_equivalence`]
//! states that sharing pays off: tokenizing a source under the symbol
//! dialect and tokenizing its translation under the keyword dialect give
//! the same operation sequence, so running either gives the same
//! execution, output and final tape.

use crate::machine::{initial_view, steps_view};
use crate::ops::{keyword_bytes, keyword_match, lemma_keyword_match_len, symbol_op, Dialect, Op};
use crate::tokenizer::{
    balanced, bracket_scan, keyword_tokens, ops_of, symbol_tokens, tokens_of,
};
use vstd::prelude::*;

verus! {

/// The keyword-dialect text that translating symbol-dialect source `s`
/// produces: each mapped character becomes its keyword, every other
/// character is skipped.
pub open spec fn translate_bytes(s: Seq<u8>) -> Seq<u8>
    decreases s.len(),
{
    if s.len() == 0 {
        Seq::empty()
    } else {
        match symbol_op(s[0]) {
            Some(op) => keyword_bytes(op) + translate_bytes(s.skip(1)),
            None => translate_bytes(s.skip(1)),
        }
    }
}

/// Unfolding `translate_bytes` at cursor `i` of the whole source.
proof fn lemma_translate_step(s: Seq<u8>, i: int)
    requires
        0 <= i < s.len(),
    ensures
        symbol_op(s[i]) matches Some(op) ==> translate_bytes(s.skip(i)) == keyword_bytes(op)
            + translate_bytes(s.skip(i + 1)),
        symbol_op(s[i]) is None ==> translate_bytes(s.skip(i)) == translate_bytes(s.skip(i + 1)),
{
    assert(s.skip(i)[0] == s[i]);
    assert(s.skip(i).skip(1) =~= s.skip(i + 1));
}

/// Append the keyword of `op` to `out`.
fn push_keyword(out: &mut Vec<u8>, op: Op)
    ensures
        final(out)@ == old(out)@ + keyword_bytes(op),
{
    match op {
        Op::ShiftLeft => {
            out.push(102);
            out.push(110);
            out.push(111);
            out.push(114);
            out.push(100);
        },
        Op::ShiftRight => {
            out.push(107);
            out.push(97);
            out.push(108);
            out.push(108);
            out.push(105);
            out.push(115);
            out.push(116);
            out.push(105);
        },
        Op::Increment => {
            out.push(53);
        },
        Op::Decrement => {
            out.push(104);
            out.push(97);
            out.push(105);
            out.push(108);
        },
        Op::Print => {
            out.push(112);
            out.push(105);
            out.push(110);
            out.push(101);
            out.push(97);
            out.push(108);
        },
        Op::Input => {
            out.push(99);
            out.push(104);
            out.push(97);
            out.push(111);
            out.push(115);
        },
        Op::LoopStart => {
            out.push(50);
            out.push(51);
        },
        Op::LoopEnd => {
            out.push(101);
            out.push(114);
            out.push(105);
            out.push(115);
        },
    }
    proof {
        assert(out@ =~= old(out)@ + keyword_bytes(op));
    }
}

/// Rewrite symbol-dialect `source` as keyword-dialect text: each mapped
/// character becomes its keyword, every other character is skipped.
pub fn translate(source: &[u8]) -> (r: Vec<u8>)
    ensures
        r@ == translate_bytes(source@),
{
    let mut out: Vec<u8> = Vec::new();
    let n = source.len();
    let mut i: usize = 0;
    proof {
        assert(source@.skip(0) =~= source@);
        assert(out@ + translate_bytes(source@) =~= translate_bytes(source@));
    }
    while i < n
        invariant
            i <= n,
            n == source@.len(),
            out@ + translate_bytes(source@.skip(i as int)) == translate_bytes(source@),
        decreases n - i,
    {
        let ghost prev = out@;
        proof {
            lemma_translate_step(source@, i as int);
        }
        let b = source[i];
        if b == 62 {  // '>'
            push_keyword(&mut out, Op::ShiftRight);
        } else if b == 60 {  // '<'
            push_keyword(&mut out, Op::ShiftLeft);
        } else if b == 43 {  // '+'
            push_keyword(&mut out, Op::Increment);
        } else if b == 45 {  // '-'
            push_keyword(&mut out, Op::Decrement);
        } else if b == 46 {  // '.'
            push_keyword(&mut out, Op::Print);
        } else if b == 44 {  // ','
            push_keyword(&mut out, Op::Input);
        } else if b == 91 {  // '['
            push_keyword(&mut out, Op::LoopStart);
        } else if b == 93 {  // ']'
            push_keyword(&mut out, Op::LoopEnd);
        }
        proof {
            match symbol_op(source@[i as int]) {
                Some(op) => {
                    assert((prev + keyword_bytes(op)) + translate_bytes(source@.skip(i as int + 1))
                        =~= prev + (keyword_bytes(op) + translate_bytes(
                        source@.skip(i as int + 1),
                    )));
                },
                None => {},
            }
        }
        i = i + 1;
    }
    proof {
        assert(source@.skip(n as int) =~= Seq::<u8>::empty());
        assert(out@ + translate_bytes(source@.skip(n as int)) =~= out@);
    }
    out
}

/// The keyword scanner, pointed at a keyword, reads exactly that keyword:
/// whatever follows, the match is the operation whose keyword begins the
/// text. This holds because the keywords' first bytes are pairwise
/// distinct.
proof fn lemma_keyword_match_of_keyword(op: Op, t: Seq<u8>)
    ensures
        keyword_match(keyword_bytes(op) + t) == Some(op),
{
    let s = keyword_bytes(op) + t;
    assert(s.len() == keyword_bytes(op).len() + t.len());
    assert(forall|j: int|
        0 <= j < keyword_bytes(op).len() ==> s[j] == keyword_bytes(op)[j]);
}

/// Token-by-token equivalence of the two dialects: the tokens of a
/// symbol source and of its translation carry the same operations in the
/// same order, whatever the position bases.
proof fn lemma_translate_tokens(s: Seq<u8>, p: int, q: int)
    ensures
        keyword_tokens(translate_bytes(s), q).len() == symbol_tokens(s, p).len(),
        forall|j: int|
            0 <= j < symbol_tokens(s, p).len() ==> keyword_tokens(translate_bytes(s), q)[j].0
                == symbol_tokens(s, p)[j].0,
    decreases s.len(),
{
    if s.len() == 0 {
    } else {
        match symbol_op(s[0]) {
            Some(op) => {
                let k = keyword_bytes(op);
                let t = translate_bytes(s.skip(1));
                lemma_keyword_match_of_keyword(op, t);
                lemma_keyword_match_len(k + t);
                assert((k + t).skip(k.len() as int) =~= t);
                lemma_translate_tokens(s.skip(1), p + 1, q + k.len());
                let kts = keyword_tokens(k + t, q);
                let sts = symbol_tokens(s, p);
                assert(kts == seq![(op, q)] + keyword_tokens(t, q + k.len()));
                assert(sts == seq![(op, p)] + symbol_tokens(s.skip(1), p + 1));
                assert forall|j: int| 0 <= j < sts.len() implies kts[j].0 == sts[j].0 by {
                    if j > 0 {
                        assert(keyword_tokens(t, q + k.len())[j - 1].0 == symbol_tokens(
                            s.skip(1),
                            p + 1,
                        )[j - 1].0);
                    }
                }
            },
            None => {
                lemma_translate_tokens(s.skip(1), p + 1, q);
            },
        }
    }
}

/// Bracket validation looks only at the operations of the tokens, never
/// at their positions: two token sequences with the same operations
/// balance or fail together, from open-loop stacks of the same depth.
proof fn lemma_bracket_scan_same_ops(
    a: Seq<(Op, int)>,
    b: Seq<(Op, int)>,
    open_a: Seq<int>,
    open_b: Seq<int>,
)
    requires
        a.len() == b.len(),
        forall|i: int| 0 <= i < a.len() ==> a[i].0 == b[i].0,
        open_a.len() == open_b.len(),
    ensures
        bracket_scan(a, open_a) is Ok <==> bracket_scan(b, open_b) is Ok,
    decreases a.len(),
{
    if a.len() == 0 {
    } else {
        assert(a[0].0 == b[0].0);
        assert forall|i: int| 0 <= i < a.skip(1).len() implies a.skip(1)[i].0 == b.skip(
            1,
        )[i].0 by {
            assert(a.skip(1)[i] == a[i + 1]);
            assert(b.skip(1)[i] == b[i + 1]);
        }
        if a[0].0 is LoopStart {
            lemma_bracket_scan_same_ops(
                a.skip(1),
                b.skip(1),
                open_a.push(a[0].1),
                open_b.push(b[0].1),
            );
        } else if a[0].0 is LoopEnd {
            if open_a.len() > 0 {
                lemma_bracket_scan_same_ops(
                    a.skip(1),
                    b.skip(1),
                    open_a.drop_last(),
                    open_b.drop_last(),
                );
            }
        } else {
            lemma_bracket_scan_same_ops(a.skip(1), b.skip(1), open_a, open_b);
        }
    }
}

/// Dialect equivalence: a symbol-dialect source and its translation
/// tokenize to the same operation sequence, balance or fail bracket
/// validation together, and therefore execute identically: started on
/// the fresh machine, both reach the same state after any number of
/// steps, so they produce the same output text and the same final tape
/// under the same supplied inputs.
pub proof fn lemma_dialect_equivalence(s: Seq<u8>)
    ensures
        ops_of(translate_bytes(s), Dialect::Keyword) == ops_of(s, Dialect::Symbol),
        balanced(translate_bytes(s), Dialect::Keyword) <==> balanced(s, Dialect::Symbol),
        forall|n: nat|
            steps_view(initial_view(ops_of(translate_bytes(s), Dialect::Keyword)), n)
                == steps_view(initial_view(ops_of(s, Dialect::Symbol)), n),
{
    lemma_translate_tokens(s, 0, 0);
    assert(ops_of(translate_bytes(s), Dialect::Keyword) =~= ops_of(s, Dialect::Symbol));
    lemma_bracket_scan_same_ops(
        tokens_of(translate_bytes(s), Dialect::Keyword),
        tokens_of(s, Dialect::Symbol),
        Seq::empty(),
        Seq::empty(),
    );
}

} // verus!
