//! The executor: a stateful virtual machine that consumes an operation
//! sequence against a fixed-size wrapping tape.
//!
//! The machine has three phases. It runs until the program ends (`Halted`)
//! or until an `Input` operation suspends it (`AwaitingInput`); the caller
//! then supplies one input byte and the machine resumes. A request for
//! input is a state transition returned to the caller, never a blocking
//! read.
//!
//! The behaviour is pinned by a spec-level small-step function,
//! [`step_view`]: every public mutation of [`BFInterpreter`] is proved to
//! equal some number of applications of `step_view` to its abstract state.

use crate::ops::Op;
use vstd::pervasive::VecAdditionalExecFns;
use vstd::prelude::*;

verus! {

/// Number of cells on the tape. The tape pointer wraps modulo this count.
pub const TAPE_LEN: usize = 30000;

/// The run phase of the executor.
#[derive(Clone, Copy, PartialEq, Eq, Structural, Debug)]
pub enum Phase {
    Running,
    AwaitingInput,
    Halted,
}

/// The mathematical model of the executor: the program it owns together
/// with the full execution state.
#[verifier::ext_equal]
pub ghost struct StateView {
    /// The operation sequence being run.
    pub prog: Seq<Op>,
    /// The memory tape, `TAPE_LEN` cells of one byte each.
    pub tape: Seq<u8>,
    /// The tape pointer.
    pub ptr: usize,
    /// The program counter: the index of the next operation to execute.
    pub pc: usize,
    /// The loop stack: indices of the `LoopStart` operations of the loops
    /// the execution point is inside of, in push order, innermost last.
    pub stack: Seq<usize>,
    /// The run phase.
    pub phase: Phase,
    /// The output accumulator: the cell values printed so far, in order.
    /// Each entry is the code point of one output character.
    pub out: Seq<u8>,
}

impl StateView {
    /// The structural invariant of an execution state: the tape has its
    /// fixed size, the pointer is on the tape, every loop-stack entry is
    /// the program index of a `LoopStart` operation, and the program
    /// counter is a program index whenever another operation may still
    /// execute.
    pub open spec fn wf(self) -> bool {
        &&& self.tape.len() == TAPE_LEN
        &&& self.ptr < TAPE_LEN
        &&& (forall|i: int|
            0 <= i < self.stack.len() ==> self.stack[i] < self.prog.len() && self.prog[#[trigger]
            self.stack[i] as int] is LoopStart)
        &&& ((self.phase is Running || self.phase is AwaitingInput) ==> self.pc
            < self.prog.len())
    }
}

/// One increment of a cell value, with 8-bit wraparound.
pub open spec fn inc_cell(c: u8) -> u8 {
    if c == 255 {
        0
    } else {
        (c + 1) as u8
    }
}

/// One decrement of a cell value, with 8-bit wraparound.
pub open spec fn dec_cell(c: u8) -> u8 {
    if c == 0 {
        255
    } else {
        (c - 1) as u8
    }
}

/// The tape pointer after one shift to the right, wrapping to cell zero.
pub open spec fn shift_right_ptr(p: usize) -> usize {
    if p + 1 == TAPE_LEN {
        0
    } else {
        (p + 1) as usize
    }
}

/// The tape pointer after one shift to the left, wrapping to the last cell.
pub open spec fn shift_left_ptr(p: usize) -> usize {
    if p == 0 {
        (TAPE_LEN - 1) as usize
    } else {
        (p - 1) as usize
    }
}

/// The counter advance that follows every non-suspending step: one
/// position forward; when the counter reaches the program length it wraps
/// to zero and the machine halts.
pub open spec fn advance_view(v: StateView) -> StateView {
    if v.pc + 1 == v.prog.len() {
        StateView { pc: 0, phase: Phase::Halted, ..v }
    } else {
        StateView { pc: (v.pc + 1) as usize, ..v }
    }
}

/// One step of the machine: the operation at the program counter is
/// consumed and the state updated.
///
/// - `ShiftRight` / `ShiftLeft` move the pointer with wraparound.
/// - `Increment` / `Decrement` update the current cell modulo 256.
/// - `Print` appends the current cell value to the output accumulator.
/// - `Input` advances the counter and suspends (`AwaitingInput`), or halts
///   when the program ends at that very point, so that the input request
///   is never re-executed on resume.
/// - `LoopStart` pushes the current counter on the loop stack.
/// - `LoopEnd` with a nonzero cell re-enters the loop: the counter returns
///   to just after the matching entry and the stack is left as it is; with
///   a zero cell the loop is exited and its entry popped. A `LoopEnd` that
///   finds the stack empty (which a bracket-balanced program never
///   produces) halts the machine rather than fail.
pub open spec fn step_view(v: StateView) -> StateView
    recommends
        v.wf(),
        v.phase is Running,
{
    match v.prog[v.pc as int] {
        Op::ShiftRight => advance_view(StateView { ptr: shift_right_ptr(v.ptr), ..v }),
        Op::ShiftLeft => advance_view(StateView { ptr: shift_left_ptr(v.ptr), ..v }),
        Op::Increment => advance_view(
            StateView { tape: v.tape.update(v.ptr as int, inc_cell(v.tape[v.ptr as int])), ..v },
        ),
        Op::Decrement => advance_view(
            StateView { tape: v.tape.update(v.ptr as int, dec_cell(v.tape[v.ptr as int])), ..v },
        ),
        Op::Print => advance_view(StateView { out: v.out.push(v.tape[v.ptr as int]), ..v }),
        Op::Input => {
            let a = advance_view(v);
            if a.phase is Halted {
                a
            } else {
                StateView { phase: Phase::AwaitingInput, ..a }
            }
        },
        Op::LoopStart => advance_view(StateView { stack: v.stack.push(v.pc), ..v }),
        Op::LoopEnd => {
            if v.stack.len() == 0 {
                StateView { pc: 0, phase: Phase::Halted, ..v }
            } else if v.tape[v.ptr as int] != 0 {
                advance_view(StateView { pc: v.stack.last(), ..v })
            } else {
                advance_view(StateView { stack: v.stack.drop_last(), ..v })
            }
        },
    }
}

/// `n` steps of the machine, stopping early as soon as the phase leaves
/// `Running`. Suspended and halted states are fixed points.
pub open spec fn steps_view(v: StateView, n: nat) -> StateView
    decreases n,
{
    if n == 0 || !(v.phase is Running) {
        v
    } else {
        steps_view(step_view(v), (n - 1) as nat)
    }
}

/// A single step preserves the structural invariant and never touches the
/// program.
pub proof fn lemma_step_preserves_wf(v: StateView)
    requires
        v.wf(),
        v.phase is Running,
    ensures
        step_view(v).wf(),
        step_view(v).prog == v.prog,
{
}

/// Unfolding `steps_view` from the right: one more step applies
/// `step_view` to the result so far, unless the machine already stopped.
pub proof fn lemma_steps_unfold(v: StateView, n: nat)
    ensures
        steps_view(v, n).phase is Running ==> steps_view(v, n + 1) == step_view(
            steps_view(v, n),
        ),
        !(steps_view(v, n).phase is Running) ==> steps_view(v, n + 1) == steps_view(v, n),
    decreases n,
{
    if v.phase is Running {
        if n == 0 {
            assert(steps_view(v, 1) == steps_view(step_view(v), 0));
        } else {
            lemma_steps_unfold(step_view(v), (n - 1) as nat);
            assert(steps_view(v, n) == steps_view(step_view(v), (n - 1) as nat));
            assert(steps_view(v, n + 1) == steps_view(step_view(v), n));
        }
    } else {
        assert(steps_view(v, n) == v);
        assert(steps_view(v, n + 1) == v);
    }
}

/// The structural invariant holds after any number of steps: in
/// particular, the tape pointer stays within `[0, TAPE_LEN)` for any
/// sequence of operations of any length.
pub proof fn lemma_steps_preserve_wf(v: StateView, n: nat)
    requires
        v.wf(),
    ensures
        steps_view(v, n).wf(),
        steps_view(v, n).prog == v.prog,
    decreases n,
{
    if n > 0 && v.phase is Running {
        lemma_step_preserves_wf(v);
        lemma_steps_preserve_wf(step_view(v), (n - 1) as nat);
    }
}

/// The wraparound law for cell arithmetic: on every 8-bit cell value,
/// increment and decrement are inverse operations modulo 256.
pub proof fn lemma_cell_wraparound(c: u8)
    ensures
        dec_cell(inc_cell(c)) == c,
        inc_cell(dec_cell(c)) == c,
        inc_cell(c) == ((c + 1) % 256) as u8,
        dec_cell(c) == ((c + 255) % 256) as u8,
{
}

/// The wraparound law for the tape pointer: both shifts keep any on-tape
/// pointer on the tape, a shift left at cell zero lands on the last cell,
/// and a shift right at the last cell lands on cell zero. Together with
/// [`lemma_steps_preserve_wf`] this keeps the pointer within
/// `[0, TAPE_LEN)` across any sequence of operations of any length.
pub proof fn lemma_pointer_wraparound()
    ensures
        forall|p: usize| p < TAPE_LEN ==> shift_right_ptr(p) < TAPE_LEN,
        forall|p: usize| p < TAPE_LEN ==> shift_left_ptr(p) < TAPE_LEN,
        shift_left_ptr(0) == (TAPE_LEN - 1) as usize,
        shift_right_ptr((TAPE_LEN - 1) as usize) == 0,
{
}

/// The loop-stack discipline: entering a loop pushes exactly one entry,
/// re-entering it on a backward jump leaves the stack untouched however
/// many iterations the loop makes, and a normal exit pops exactly the
/// entry the matching `LoopStart` pushed. A loop whose body returns the
/// stack to its depth at entry therefore leaves, on normal exit, the
/// stack exactly as it stood before the loop was entered: no stale
/// entries accumulate. Every other operation leaves the stack as it is.
pub proof fn lemma_loop_stack_discipline(v: StateView)
    requires
        v.wf(),
        v.phase is Running,
    ensures
        v.prog[v.pc as int] is LoopStart ==> step_view(v).stack == v.stack.push(v.pc),
        v.prog[v.pc as int] is LoopEnd && v.stack.len() > 0 && v.tape[v.ptr as int] != 0
            ==> step_view(v).stack == v.stack,
        v.prog[v.pc as int] is LoopEnd && v.stack.len() > 0 && v.tape[v.ptr as int] == 0
            ==> step_view(v).stack == v.stack.drop_last(),
        !(v.prog[v.pc as int] is LoopStart) && !(v.prog[v.pc as int] is LoopEnd) ==> step_view(
            v,
        ).stack == v.stack,
{
}

/// How one step can change the loop stack: left alone, one entry pushed
/// at the top, or the top entry popped — entries below the top never
/// move. Only a normal loop exit, a `LoopEnd` at a zero cell, pops.
pub proof fn lemma_step_stack_shape(v: StateView)
    requires
        v.wf(),
        v.phase is Running,
    ensures
        step_view(v).stack == v.stack || step_view(v).stack == v.stack.push(v.pc) || (
        v.stack.len() > 0 && step_view(v).stack == v.stack.drop_last()),
        step_view(v).stack.len() < v.stack.len() ==> v.prog[v.pc as int] is LoopEnd
            && v.tape[v.ptr as int] == 0 && step_view(v).stack == v.stack.drop_last(),
{
}

/// Unfolding `steps_view` from the left on a running state.
proof fn lemma_steps_shift(v: StateView, n: nat)
    requires
        v.phase is Running,
    ensures
        steps_view(v, n + 1) == steps_view(step_view(v), n),
{
}

/// While the stack stays at least `d` deep, its bottom `d` entries never
/// change.
proof fn lemma_stack_bottom_preserved(v: StateView, d: int, n: nat)
    requires
        v.wf(),
        0 <= d <= v.stack.len(),
        forall|j: nat| j <= n ==> d <= (#[trigger] steps_view(v, j)).stack.len(),
    ensures
        steps_view(v, n).wf(),
        d <= steps_view(v, n).stack.len(),
        steps_view(v, n).stack.take(d) == v.stack.take(d),
    decreases n,
{
    if n == 0 {
    } else if !(v.phase is Running) {
        assert(steps_view(v, n) == v);
    } else {
        let u = step_view(v);
        lemma_step_preserves_wf(v);
        lemma_step_stack_shape(v);
        lemma_steps_shift(v, 0);
        assert(steps_view(v, 1) == u);
        assert(d <= steps_view(v, 1nat).stack.len());
        assert(u.stack.take(d) =~= v.stack.take(d));
        assert forall|j: nat| j <= (n - 1) as nat implies d <= (#[trigger] steps_view(
            u,
            j,
        )).stack.len() by {
            lemma_steps_shift(v, j);
            assert(d <= steps_view(v, (j + 1) as nat).stack.len());
        }
        lemma_stack_bottom_preserved(u, d, (n - 1) as nat);
        lemma_steps_shift(v, (n - 1) as nat);
        assert(steps_view(v, n) == steps_view(u, (n - 1) as nat));
    }
}

/// The loop-termination law, over a whole execution: take a state about
/// to enter a loop (`LoopStart` at the counter, stack depth `d`), and
/// suppose the stack first returns to depth `d` after step `n + 1`. Then
/// that step is a normal loop exit — a `LoopEnd` executed at a zero cell
/// — and it pops exactly the entry the `LoopStart` pushed: the stack is
/// restored to what it was before the loop was entered, with no stale
/// entries left behind, however many iterations the loop made.
pub proof fn lemma_loop_depth_restored(v: StateView, n: nat)
    requires
        v.wf(),
        v.phase is Running,
        v.prog[v.pc as int] is LoopStart,
        forall|j: nat| 1 <= j <= n ==> v.stack.len() < (#[trigger] steps_view(v, j)).stack.len(),
        steps_view(v, n + 1).stack.len() == v.stack.len(),
    ensures
        n >= 1,
        steps_view(v, n).phase is Running,
        steps_view(v, n).prog[steps_view(v, n).pc as int] is LoopEnd,
        steps_view(v, n).tape[steps_view(v, n).ptr as int] == 0,
        steps_view(v, n).stack == v.stack.push(v.pc),
        steps_view(v, n + 1).stack == v.stack,
{
    let d = v.stack.len() as int;
    let u = step_view(v);
    lemma_step_preserves_wf(v);
    lemma_steps_shift(v, 0);
    assert(steps_view(v, 1) == u);
    assert(u.stack == v.stack.push(v.pc));
    if n == 0 {
        assert(steps_view(v, n + 1) == u);
        assert(false);
    }
    let w = steps_view(v, n);
    assert(d < w.stack.len());
    lemma_steps_unfold(v, n);
    if !(w.phase is Running) {
        assert(steps_view(v, n + 1) == w);
        assert(false);
    }
    assert(steps_view(v, n + 1) == step_view(w));
    lemma_steps_preserve_wf(v, n);
    lemma_step_stack_shape(w);
    assert(step_view(w).stack.len() < w.stack.len());
    assert(w.stack.len() == d + 1);
    assert forall|j: nat| j <= (n - 1) as nat implies d + 1 <= (#[trigger] steps_view(
        u,
        j,
    )).stack.len() by {
        lemma_steps_shift(v, j);
        assert(steps_view(v, (j + 1) as nat) == steps_view(u, j));
        assert(v.stack.len() < steps_view(v, (j + 1) as nat).stack.len());
    }
    lemma_stack_bottom_preserved(u, d + 1, (n - 1) as nat);
    lemma_steps_shift(v, (n - 1) as nat);
    assert(w == steps_view(u, (n - 1) as nat));
    assert(w.stack.take(d + 1) == u.stack.take(d + 1));
    assert(u.stack.take(d + 1) =~= u.stack);
    assert(w.stack =~= w.stack.take(d + 1));
    assert(w.stack == v.stack.push(v.pc));
    assert(step_view(w).stack =~= v.stack);
}

/// The zero-initialized tape.
pub open spec fn zero_tape() -> Seq<u8> {
    Seq::new(TAPE_LEN as nat, |i: int| 0u8)
}

/// The state a fresh machine starts in: counter zero, pointer zero, zero
/// tape, empty loop stack, empty output. An empty program has nothing to
/// execute, so the machine starts halted; otherwise it starts running.
pub open spec fn initial_view(prog: Seq<Op>) -> StateView {
    StateView {
        prog: prog,
        tape: zero_tape(),
        ptr: 0,
        pc: 0,
        stack: Seq::empty(),
        phase: if prog.len() == 0 {
            Phase::Halted
        } else {
            Phase::Running
        },
        out: Seq::empty(),
    }
}

/// The state after one input byte is supplied to a suspended machine: the
/// byte is written to the current cell and the machine runs again from the
/// counter position the suspending `Input` left behind.
pub open spec fn resume_view(v: StateView, input: u8) -> StateView {
    StateView { tape: v.tape.update(v.ptr as int, input), phase: Phase::Running, ..v }
}

/// The executor. It owns its program and execution state exclusively;
/// every mutation happens inside one of the methods below, so the state
/// observed between calls is always consistent.
pub struct BFInterpreter {
    program: Vec<Op>,
    tape: Vec<u8>,
    pointer: usize,
    pc: usize,
    loop_stack: Vec<usize>,
    phase: Phase,
    output: Vec<u8>,
}

impl View for BFInterpreter {
    type V = StateView;

    closed spec fn view(&self) -> StateView {
        StateView {
            prog: self.program@,
            tape: self.tape@,
            ptr: self.pointer,
            pc: self.pc,
            stack: self.loop_stack@,
            phase: self.phase,
            out: self.output@,
        }
    }
}

impl BFInterpreter {
    /// A fresh machine for `program`, with a zero-initialized tape.
    pub fn new(program: Vec<Op>) -> (r: BFInterpreter)
        ensures
            r@ == initial_view(program@),
            r@.wf(),
    {
        let phase = if program.len() == 0 {
            Phase::Halted
        } else {
            Phase::Running
        };
        let mut tape: Vec<u8> = Vec::new();
        let mut i: usize = 0;
        while i < TAPE_LEN
            invariant
                i <= TAPE_LEN,
                tape@.len() == i,
                forall|j: int| 0 <= j < i ==> tape@[j] == 0,
            decreases TAPE_LEN - i,
        {
            tape.push(0);
            i = i + 1;
        }
        let r = BFInterpreter {
            program,
            tape,
            pointer: 0,
            pc: 0,
            loop_stack: Vec::new(),
            phase,
            output: Vec::new(),
        };
        proof {
            assert(r@.tape =~= zero_tape());
            assert(r@ =~= initial_view(r@.prog));
        }
        r
    }

    /// The counter advance shared by the non-suspending steps.
    fn advance(&mut self)
        requires
            old(self)@.pc < old(self)@.prog.len(),
        ensures
            final(self)@ == advance_view(old(self)@),
    {
        let len = self.program.len();
        if self.pc + 1 == len {
            self.pc = 0;
            self.phase = Phase::Halted;
        } else {
            self.pc = self.pc + 1;
        }
        proof {
            assert(self@ =~= advance_view(old(self)@));
        }
    }

    /// Execute steps until the machine suspends for input, halts, or
    /// consumes `fuel` steps, whichever comes first; the result says
    /// whether the machine stopped of its own accord.
    ///
    /// The final state is exactly some number `n <= fuel` of applications
    /// of [`step_view`] to the starting state, and only a run cut short by
    /// the budget (`n == fuel`) can still be running; since suspended and
    /// halted states are fixed points of [`steps_view`], this pins the
    /// final state to the first suspension or halt the program reaches
    /// within the budget. A machine that is already suspended or halted is
    /// returned unchanged. The budget exists because a program of this
    /// language need not terminate; a caller that wants to run to
    /// completion calls again while the machine reports itself running.
    pub fn run(&mut self, fuel: u64) -> (stopped: bool)
        requires
            old(self)@.wf(),
        ensures
            final(self)@.wf(),
            stopped == !(final(self)@.phase is Running),
            exists|n: nat|
                n <= fuel && final(self)@ == steps_view(old(self)@, n) && (final(self)@.phase
                    is Running ==> n == fuel),
    {
        let ghost init = self@;
        let mut used: u64 = 0;
        while self.phase == Phase::Running && used < fuel
            invariant
                self@.wf(),
                used <= fuel,
                self@ == steps_view(init, used as nat),
            decreases fuel - used,
        {
            let ghost n = used as nat;
            proof {
                lemma_steps_unfold(init, n);
                lemma_step_preserves_wf(self@);
            }
            let ghost pre = self@;
            let op = self.program[self.pc];
            match op {
                Op::ShiftRight => {
                    if self.pointer + 1 == TAPE_LEN {
                        self.pointer = 0;
                    } else {
                        self.pointer = self.pointer + 1;
                    }
                    self.advance();
                },
                Op::ShiftLeft => {
                    if self.pointer == 0 {
                        self.pointer = TAPE_LEN - 1;
                    } else {
                        self.pointer = self.pointer - 1;
                    }
                    self.advance();
                },
                Op::Increment => {
                    let c = self.tape[self.pointer];
                    let c2 = if c == 255 {
                        0
                    } else {
                        c + 1
                    };
                    self.tape.set(self.pointer, c2);
                    self.advance();
                },
                Op::Decrement => {
                    let c = self.tape[self.pointer];
                    let c2 = if c == 0 {
                        255
                    } else {
                        c - 1
                    };
                    self.tape.set(self.pointer, c2);
                    self.advance();
                },
                Op::Print => {
                    let c = self.tape[self.pointer];
                    self.output.push(c);
                    self.advance();
                },
                Op::Input => {
                    self.advance();
                    if self.phase == Phase::Running {
                        self.phase = Phase::AwaitingInput;
                    }
                },
                Op::LoopStart => {
                    self.loop_stack.push(self.pc);
                    self.advance();
                },
                Op::LoopEnd => {
                    if self.loop_stack.len() == 0 {
                        self.pc = 0;
                        self.phase = Phase::Halted;
                    } else {
                        let c = self.tape[self.pointer];
                        if c != 0 {
                            self.pc = self.loop_stack[self.loop_stack.len() - 1];
                            self.advance();
                        } else {
                            self.loop_stack.pop();
                            self.advance();
                        }
                    }
                },
            }
            proof {
                assert(self@ =~= step_view(pre));
            }
            used = used + 1;
        }
        !(self.phase == Phase::Running)
    }

    /// Supply one input byte to a suspended machine: the byte is written
    /// to the current cell (its value is the input character's code
    /// point, reduced to one byte), the machine resumes, and execution
    /// continues from the counter position the suspending `Input` left
    /// behind, until it suspends again, halts, or consumes `fuel` steps.
    pub fn provide_input(&mut self, input: u8, fuel: u64) -> (stopped: bool)
        requires
            old(self)@.wf(),
            old(self)@.phase is AwaitingInput,
        ensures
            final(self)@.wf(),
            stopped == !(final(self)@.phase is Running),
            exists|n: nat|
                n <= fuel && final(self)@ == steps_view(resume_view(old(self)@, input), n) && (
                final(self)@.phase is Running ==> n == fuel),
    {
        self.tape.set(self.pointer, input);
        self.phase = Phase::Running;
        proof {
            assert(self@ =~= resume_view(old(self)@, input));
        }
        self.run(fuel)
    }

    /// Reset the execution state without touching the program: counter to
    /// zero, loop stack and output accumulator emptied, phase back to the
    /// starting phase for the program. With `clear_tape` the tape is
    /// zeroed and the pointer returned to cell zero; otherwise both keep
    /// their values.
    pub fn reset(&mut self, clear_tape: bool)
        requires
            old(self)@.wf(),
        ensures
            final(self)@.wf(),
            final(self)@.prog == old(self)@.prog,
            final(self)@.pc == 0,
            final(self)@.stack == Seq::<usize>::empty(),
            final(self)@.out == Seq::<u8>::empty(),
            final(self)@.phase == initial_view(old(self)@.prog).phase,
            clear_tape ==> final(self)@.tape == zero_tape() && final(self)@.ptr == 0,
            !clear_tape ==> final(self)@.tape == old(self)@.tape && final(self)@.ptr == old(self)@.ptr,
    {
        self.pc = 0;
        self.loop_stack = Vec::new();
        self.output = Vec::new();
        self.phase = if self.program.len() == 0 {
            Phase::Halted
        } else {
            Phase::Running
        };
        if clear_tape {
            let mut tape: Vec<u8> = Vec::new();
            let mut i: usize = 0;
            while i < TAPE_LEN
                invariant
                    i <= TAPE_LEN,
                    tape@.len() == i,
                    forall|j: int| 0 <= j < i ==> tape@[j] == 0,
                decreases TAPE_LEN - i,
            {
                tape.push(0);
                i = i + 1;
            }
            self.tape = tape;
            self.pointer = 0;
            proof {
                assert(self@.tape =~= zero_tape());
            }
        }
    }

    /// The current run phase.
    pub fn phase(&self) -> (p: Phase)
        ensures
            p == self@.phase,
    {
        self.phase
    }

    /// The output accumulated so far: the printed cell values in order,
    /// each the code point of one output character.
    pub fn output(&self) -> (out: &Vec<u8>)
        ensures
            out@ == self@.out,
    {
        &self.output
    }

    /// The value of cell `i`.
    pub fn cell(&self, i: usize) -> (c: u8)
        requires
            i < self@.tape.len(),
        ensures
            c == self@.tape[i as int],
    {
        self.tape[i]
    }

    /// The current tape pointer.
    pub fn pointer(&self) -> (p: usize)
        ensures
            p == self@.ptr,
    {
        self.pointer
    }

    /// The current depth of the loop stack.
    pub fn loop_depth(&self) -> (d: usize)
        ensures
            d == self@.stack.len(),
    {
        self.loop_stack.len()
    }
}

} // verus!
