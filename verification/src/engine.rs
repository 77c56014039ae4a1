//! The execution engine: a stack machine over an immutable program buffer.
//!
//! The machine owns a program counter, an operand stack of 64-bit values and
//! a fixed bank of variable slots.  One instruction is one `step`; every
//! interaction with the host (console text, the interactive-halt key wait,
//! a power-state change) is reported as an event rather than performed, so
//! the semantics of a step is the pure function `step_spec` and a host loop
//! around the engine performs the effects.
//!
//! Malformed instructions never stop the machine: a truncated operand or an
//! unknown opcode skips one byte and the run continues.  The only ways a run
//! ends are reaching the end of the program, the explicit halt opcode, or a
//! power-control opcode (after which the host never returns control).

use vstd::prelude::*;
use vstd::pervasive::VecAdditionalExecFns;
use vstd::utf8::valid_utf8;
use vstd::wrapping::u64_specs;
use crate::text;

verus! {

/// Scan code reported by the host for the escape key.
pub const SCAN_ESC: u16 = 0x0017;

/// Number of slots in the variable bank.
pub const VAR_SLOTS: usize = 64;

/// The machine state: program counter, operand stack (top is the last
/// element), and the variable bank.
pub ghost struct State {
    pub pc: int,
    pub stack: Seq<u64>,
    pub vars: Seq<u64>,
}

/// Which power transition a power-control opcode requests.
#[derive(Clone, Copy, PartialEq, Eq, Debug)]
pub enum ResetKind {
    Cold,
    Shutdown,
}

/// What a single step asks of the host.
pub ghost enum EventSpec {
    /// No host interaction.
    Quiet,
    /// Write this (valid UTF-8) text to the console.
    Output(Seq<u8>),
    /// The explicit halt opcode: the run is over.
    Halt,
    /// The interactive-halt opcode: prompt, wait for one key, then resume.
    /// Carries the operand, the candidate jump target.
    Await(u16),
    /// Invoke the power-control service; control does not come back.
    Reset(ResetKind),
}

/// State and event produced by one instruction.
pub ghost struct StepSpec {
    pub state: State,
    pub event: EventSpec,
}

/// The 16-bit little-endian operand of the interactive-halt opcode.
pub open spec fn le16(lo: u8, hi: u8) -> u16 {
    (lo + 256 * hi) as u16
}

/// True for the opcodes that push a single fixed literal.
pub open spec fn is_single_push(op: u8) -> bool {
    ||| op == 0x02 ||| op == 0x03 ||| op == 0x04 ||| op == 0x05 ||| op == 0x06 ||| op == 0x07
    ||| op == 0x08 ||| op == 0x13 ||| op == 0x14 ||| op == 0x15 ||| op == 0x18 ||| op == 0x19
    ||| op == 0x20 ||| op == 0x21 ||| op == 0x22 ||| op == 0x23 ||| op == 0x24 ||| op == 0x25
    ||| op == 0x26 ||| op == 0x27 ||| op == 0x28
}

/// The literal a single-push opcode pushes.  The exact bit patterns are part
/// of the instruction set: programs and external tooling depend on them.
pub open spec fn push_const(op: u8) -> u64
    recommends
        is_single_push(op),
{
    if op == 0x02 {
        2
    } else if op == 0x03 {
        3
    } else if op == 0x04 {
        42
    } else if op == 0x05 {
        0x53545249
    } else if op == 0x06 {
        99
    } else if op == 0x07 {
        0x57414954
    } else if op == 0x08 {
        0x53544400
    } else if op == 0x13 {
        0xDEADBEEF
    } else if op == 0x14 {
        0xCAFEBABE
    } else if op == 0x15 {
        0xFEEDFACE
    } else if op == 0x18 {
        0xB105F00D
    } else if op == 0x19 {
        0xB007B007
    } else if op == 0x20 {
        0x10AD10AD
    } else if op == 0x21 {
        0xC0DECAFE
    } else if op == 0x22 {
        0x7E57C0DE
    } else if op == 0x23 {
        0x0BADC0DE
    } else if op == 0x24 {
        0xFACEFEED
    } else if op == 0x25 {
        0xC001D00D
    } else if op == 0x26 {
        0xBEEFBEEF
    } else if op == 0x27 {
        0xF00DF00D
    } else {
        0xB16B00B5
    }
}

/// Result of a binary arithmetic opcode.  Addition, subtraction and
/// multiplication are modulo 2^64; see `div_stack` for division.
pub open spec fn arith_result(op: u8, a: u64, b: u64) -> u64
    recommends
        op == 0x09 || op == 0x10 || op == 0x11,
{
    if op == 0x09 {
        u64_specs::wrapping_add(a, b)
    } else if op == 0x10 {
        u64_specs::wrapping_sub(a, b)
    } else {
        u64_specs::wrapping_mul(a, b)
    }
}

/// The stack after the division opcode.  With two operands the top is
/// popped as the divisor and the next as the dividend; a divisor of zero
/// falls back to 1, so division can never trap.  A missing divisor falls
/// back to 1 as well: a lone dividend `x` goes back as `x / 1 == x`, so
/// the stack keeps its one entry.  With no operands at all there is
/// nothing to divide and nothing is pushed.
pub open spec fn div_stack(stack: Seq<u64>) -> Seq<u64> {
    if stack.len() >= 2 {
        let b = stack.last();
        let a = stack.drop_last().last();
        let d = if b == 0 {
            1u64
        } else {
            b
        };
        stack.drop_last().drop_last().push(a / d)
    } else {
        stack
    }
}

/// The skip-and-continue fallback: advance one byte, change nothing else.
pub open spec fn skipped(s: State) -> StepSpec {
    StepSpec {
        state: State { pc: s.pc + 1, stack: s.stack, vars: s.vars },
        event: EventSpec::Quiet,
    }
}

/// The meaning of the instruction at `s.pc`: the state after it and the
/// host event it raises.  This is the single definition of the instruction
/// set; the executable `Engine::step` is proved to implement it exactly.
pub open spec fn step_spec(prog: Seq<u8>, s: State) -> StepSpec
    recommends
        0 <= s.pc < prog.len(),
{
    let op = prog[s.pc];
    if op == 0x01 {
        // print: one length byte, then that many bytes of UTF-8 text
        if s.pc + 2 <= prog.len() {
            let l = prog[s.pc + 1] as int;
            if s.pc + 2 + l <= prog.len() {
                let payload = prog.subrange(s.pc + 2, s.pc + 2 + l);
                StepSpec {
                    state: State { pc: s.pc + 2 + l, stack: s.stack, vars: s.vars },
                    event: if valid_utf8(payload) {
                        EventSpec::Output(payload)
                    } else {
                        // invalid text is discarded, but the operand is still consumed
                        EventSpec::Quiet
                    },
                }
            } else {
                // declared length runs past the end of the program
                skipped(s)
            }
        } else {
            // length byte itself is missing
            skipped(s)
        }
    } else if is_single_push(op) {
        StepSpec {
            state: State { pc: s.pc + 1, stack: s.stack.push(push_const(op)), vars: s.vars },
            event: EventSpec::Quiet,
        }
    } else if op == 0x29 {
        // one instruction, three literals
        StepSpec {
            state: State {
                pc: s.pc + 1,
                stack: s.stack.push(12u64).push(34u64).push(56u64),
                vars: s.vars,
            },
            event: EventSpec::Quiet,
        }
    } else if op == 0x09 || op == 0x10 || op == 0x11 {
        // binary arithmetic: pop the top as b, the next as a, push a op b;
        // with fewer than two operands the stack is left unchanged
        if s.stack.len() >= 2 {
            let b = s.stack.last();
            let a = s.stack.drop_last().last();
            StepSpec {
                state: State {
                    pc: s.pc + 1,
                    stack: s.stack.drop_last().drop_last().push(arith_result(op, a, b)),
                    vars: s.vars,
                },
                event: EventSpec::Quiet,
            }
        } else {
            skipped(s)
        }
    } else if op == 0x12 {
        StepSpec {
            state: State { pc: s.pc + 1, stack: div_stack(s.stack), vars: s.vars },
            event: EventSpec::Quiet,
        }
    } else if op == 0x16 {
        StepSpec { state: s, event: EventSpec::Reset(ResetKind::Cold) }
    } else if op == 0x17 {
        StepSpec { state: s, event: EventSpec::Reset(ResetKind::Shutdown) }
    } else if op == 0x30 {
        // clear the operand stack
        StepSpec {
            state: State { pc: s.pc + 1, stack: Seq::empty(), vars: s.vars },
            event: EventSpec::Quiet,
        }
    } else if op == 0x31 {
        // explicit halt: the loop ends here, pc does not move
        StepSpec { state: s, event: EventSpec::Halt }
    } else if op == 0x32 {
        // store: pop one value (0 if the stack is empty) into variable slot 0
        let v = if s.stack.len() >= 1 {
            s.stack.last()
        } else {
            0u64
        };
        let stack = if s.stack.len() >= 1 {
            s.stack.drop_last()
        } else {
            s.stack
        };
        StepSpec {
            state: State { pc: s.pc + 1, stack, vars: s.vars.update(0, v) },
            event: EventSpec::Quiet,
        }
    } else if op == 0xFF {
        // interactive halt: needs a 2-byte little-endian jump target
        if s.pc + 3 <= prog.len() {
            StepSpec { state: s, event: EventSpec::Await(le16(prog[s.pc + 1], prog[s.pc + 2])) }
        } else {
            skipped(s)
        }
    } else {
        // 0x00 and every unknown opcode: skip and continue
        skipped(s)
    }
}

/// How a run resumes after the interactive halt delivered a key.  If the
/// engine is paused at a well-formed interactive-halt instruction, the
/// escape key jumps to the operand when that target is inside the program;
/// any other key, or an out-of-range target, advances past the instruction.
/// In any other state nothing changes.
pub open spec fn resume_spec(prog: Seq<u8>, s: State, scan_code: u16) -> State {
    if 0 <= s.pc && s.pc + 3 <= prog.len() && prog[s.pc] == 0xFF {
        let target = le16(prog[s.pc + 1], prog[s.pc + 2]);
        if scan_code == SCAN_ESC && target < prog.len() {
            State { pc: target as int, stack: s.stack, vars: s.vars }
        } else {
            State { pc: s.pc + 3, stack: s.stack, vars: s.vars }
        }
    } else {
        s
    }
}

/// Why a run stopped and gave control back to the host.
#[derive(Clone, Copy, PartialEq, Eq, Debug)]
pub enum Pause {
    /// The program counter reached the end of the program.
    EndOfProgram,
    /// The explicit halt opcode executed.
    Halted,
    /// An interactive halt wants one keypress; the payload is the candidate
    /// jump target.  Deliver the key with `Engine::resume_with_key`.
    AwaitKey(u16),
    /// A power-control opcode fired; the host must not return to the engine.
    PowerReset(ResetKind),
}

/// A finished stretch of execution: the state it ends in, the console
/// outputs it produced in order, and why it stopped.
pub ghost struct RunSpec {
    pub state: State,
    pub outputs: Seq<Seq<u8>>,
    pub pause: Pause,
}

/// Runs `step_spec` from `s` until the program ends or an instruction needs
/// the host: the reference semantics of `Engine::run_to_pause`.  Every
/// non-pausing instruction moves the program counter strictly forward, so a
/// stretch of execution always terminates.
pub open spec fn run_spec(prog: Seq<u8>, s: State) -> RunSpec
    decreases prog.len() - s.pc,
        via run_spec_decreases
{
    if s.pc < 0 || s.pc >= prog.len() {
        RunSpec { state: s, outputs: Seq::empty(), pause: Pause::EndOfProgram }
    } else {
        let st = step_spec(prog, s);
        match st.event {
            EventSpec::Quiet => run_spec(prog, st.state),
            EventSpec::Output(text) => {
                let rest = run_spec(prog, st.state);
                RunSpec { state: rest.state, outputs: seq![text] + rest.outputs, pause: rest.pause }
            },
            EventSpec::Halt => RunSpec {
                state: st.state,
                outputs: Seq::empty(),
                pause: Pause::Halted,
            },
            EventSpec::Await(target) => RunSpec {
                state: st.state,
                outputs: Seq::empty(),
                pause: Pause::AwaitKey(target),
            },
            EventSpec::Reset(kind) => RunSpec {
                state: st.state,
                outputs: Seq::empty(),
                pause: Pause::PowerReset(kind),
            },
        }
    }
}

#[via_fn]
proof fn run_spec_decreases(prog: Seq<u8>, s: State) {
    if 0 <= s.pc < prog.len() {
        lemma_step_advances(prog, s);
    }
}

/// Every step that does not pause the machine advances the program counter
/// by at least one byte and keeps it within the program.
pub proof fn lemma_step_advances(prog: Seq<u8>, s: State)
    requires
        0 <= s.pc < prog.len(),
    ensures
        (step_spec(prog, s).event is Quiet || step_spec(prog, s).event is Output) ==> s.pc
            < step_spec(prog, s).state.pc <= prog.len(),
{
}

/// A program that contains no interactive-halt opcode can never pause for
/// a key.  Verus also proves that `run_spec` (and with it
/// `Engine::run_to_pause`) always terminates, so a single stretch of
/// execution runs such a program all the way to its end, its halt, or a
/// power-off: the engine cannot loop forever on it.
pub proof fn lemma_no_pause_without_interactive_halt(prog: Seq<u8>, s: State)
    requires
        forall|i: int| 0 <= i < prog.len() ==> prog[i] != 0xFF,
    ensures
        !(run_spec(prog, s).pause is AwaitKey),
    decreases prog.len() - s.pc,
{
    if 0 <= s.pc < prog.len() {
        lemma_step_advances(prog, s);
        let st = step_spec(prog, s);
        if st.event is Quiet || st.event is Output {
            lemma_no_pause_without_interactive_halt(prog, st.state);
        }
    }
}

/// When a run pauses for a key, the machine stands exactly at a
/// well-formed interactive-halt instruction, and the reported candidate
/// target is that instruction's operand: the key delivered to
/// `Engine::resume_with_key` therefore always reaches the branch decision.
pub proof fn lemma_await_pause_is_at_interactive_halt(prog: Seq<u8>, s: State)
    ensures
        run_spec(prog, s).pause is AwaitKey ==> {
            &&& 0 <= run_spec(prog, s).state.pc
            &&& run_spec(prog, s).state.pc + 3 <= prog.len()
            &&& prog[run_spec(prog, s).state.pc] == 0xFF
            &&& run_spec(prog, s).pause == Pause::AwaitKey(
                le16(
                    prog[run_spec(prog, s).state.pc + 1],
                    prog[run_spec(prog, s).state.pc + 2],
                ),
            )
        },
    decreases prog.len() - s.pc,
{
    if 0 <= s.pc < prog.len() {
        let st = step_spec(prog, s);
        if st.event is Quiet || st.event is Output {
            lemma_step_advances(prog, s);
            lemma_await_pause_is_at_interactive_halt(prog, st.state);
        }
    }
}

/// Every text a run hands to the host console is valid UTF-8: the print
/// instruction discards payloads that do not decode.
pub proof fn lemma_outputs_are_valid_utf8(prog: Seq<u8>, s: State)
    ensures
        forall|i: int|
            0 <= i < run_spec(prog, s).outputs.len() ==> valid_utf8(
                #[trigger] run_spec(prog, s).outputs[i],
            ),
    decreases prog.len() - s.pc,
{
    if 0 <= s.pc < prog.len() {
        lemma_step_advances(prog, s);
        let st = step_spec(prog, s);
        match st.event {
            EventSpec::Quiet => {
                lemma_outputs_are_valid_utf8(prog, st.state);
            },
            EventSpec::Output(text) => {
                lemma_outputs_are_valid_utf8(prog, st.state);
                let rest = run_spec(prog, st.state);
                assert forall|i: int| 0 <= i < run_spec(prog, s).outputs.len() implies valid_utf8(
                    #[trigger] run_spec(prog, s).outputs[i],
                ) by {
                    if i == 0 {
                        assert(run_spec(prog, s).outputs[i] == text);
                    } else {
                        assert(run_spec(prog, s).outputs[i] == rest.outputs[i - 1]);
                    }
                }
            },
            _ => {},
        }
    }
}

/// Binary arithmetic with fewer than two operands is a no-op but for the
/// program counter, which advances one byte.
pub proof fn lemma_arith_underflow_is_noop(prog: Seq<u8>, s: State)
    requires
        0 <= s.pc < prog.len(),
        prog[s.pc] == 0x09 || prog[s.pc] == 0x10 || prog[s.pc] == 0x11,
        s.stack.len() < 2,
    ensures
        step_spec(prog, s).state.pc == s.pc + 1,
        step_spec(prog, s).state.stack == s.stack,
        step_spec(prog, s).state.vars == s.vars,
        step_spec(prog, s).event is Quiet,
{
}

/// Division with fewer than two operands never traps: the missing divisor
/// falls back to 1, so a lone dividend `x` goes back as `x / 1 == x` and
/// the stack is left unchanged — as it is when the stack is empty and
/// there is nothing to divide at all.
pub proof fn lemma_div_underflow(prog: Seq<u8>, s: State)
    requires
        0 <= s.pc < prog.len(),
        prog[s.pc] == 0x12,
        s.stack.len() < 2,
    ensures
        step_spec(prog, s).state.pc == s.pc + 1,
        step_spec(prog, s).state.vars == s.vars,
        step_spec(prog, s).state.stack == s.stack,
        step_spec(prog, s).event is Quiet,
{
}

/// A print instruction whose declared text would run past the end of the
/// program prints nothing, leaves the stack and the variable bank
/// unchanged, and advances the program counter by exactly one byte.
pub proof fn lemma_truncated_print_skips(prog: Seq<u8>, s: State)
    requires
        0 <= s.pc < prog.len(),
        prog[s.pc] == 0x01,
        s.pc + 2 <= prog.len() ==> s.pc + 2 + prog[s.pc + 1] > prog.len(),
    ensures
        step_spec(prog, s).state.pc == s.pc + 1,
        step_spec(prog, s).state.stack == s.stack,
        step_spec(prog, s).state.vars == s.vars,
        step_spec(prog, s).event is Quiet,
{
}

/// After an interactive halt whose jump target lies outside the program,
/// no key — the escape key included — moves the program counter to that
/// target: the machine steps past the instruction instead.
pub proof fn lemma_out_of_range_target_is_never_taken(prog: Seq<u8>, s: State, scan_code: u16)
    requires
        0 <= s.pc,
        s.pc + 3 <= prog.len(),
        prog[s.pc] == 0xFF,
        le16(prog[s.pc + 1], prog[s.pc + 2]) >= prog.len(),
    ensures
        resume_spec(prog, s, scan_code).pc == s.pc + 3,
        resume_spec(prog, s, scan_code).stack == s.stack,
        resume_spec(prog, s, scan_code).vars == s.vars,
{
}

/// Proof glue for `run_to_pause`: collected console texts that match, one
/// for one, a sequence of valid outputs are themselves valid.
proof fn lemma_collected_outputs_are_valid(outputs: Seq<Vec<u8>>, done: Seq<Seq<u8>>)
    requires
        outputs.len() == done.len(),
        forall|i: int| 0 <= i < done.len() ==> outputs[i]@ == done[i],
        forall|i: int| 0 <= i < done.len() ==> valid_utf8(#[trigger] done[i]),
    ensures
        forall|i: int| 0 <= i < outputs.len() ==> valid_utf8(#[trigger] outputs[i]@),
{
    assert forall|i: int| 0 <= i < outputs.len() implies valid_utf8(#[trigger] outputs[i]@) by {
        assert(outputs[i]@ == done[i]);
    }
}

/// The console outputs and stop reason of one stretch of execution.
pub struct RunOutput {
    pub outputs: Vec<Vec<u8>>,
    pub pause: Pause,
}

/// The fixed text the host prints before waiting for the interactive-halt
/// keypress.
pub fn pause_prompt() -> (r: &'static str)
    ensures
        r@ == "HALT: Press any key to continue, or ESC to jump...\r\n"@,
{
    "HALT: Press any key to continue, or ESC to jump...\r\n"
}

/// What a single step asks of the host (executable form).
pub enum StepEvent {
    Quiet,
    Output(Vec<u8>),
    Halt,
    AwaitKey(u16),
    PowerReset(ResetKind),
}

impl View for StepEvent {
    type V = EventSpec;

    open spec fn view(&self) -> EventSpec {
        match self {
            StepEvent::Quiet => EventSpec::Quiet,
            StepEvent::Output(text) => EventSpec::Output(text@),
            StepEvent::Halt => EventSpec::Halt,
            StepEvent::AwaitKey(target) => EventSpec::Await(*target),
            StepEvent::PowerReset(kind) => EventSpec::Reset(*kind),
        }
    }
}

/// The execution engine.  `new` creates it with pc 0, an empty stack and a
/// zeroed variable bank; `step` executes one instruction.
pub struct Engine {
    pc: usize,
    stack: Vec<u64>,
    vars: Vec<u64>,
}

impl View for Engine {
    type V = State;

    closed spec fn view(&self) -> State {
        State { pc: self.pc as int, stack: self.stack@, vars: self.vars@ }
    }
}

impl Engine {
    /// Well-formed engines have the full bank of variable slots.
    pub open spec fn wf(&self) -> bool {
        &&& self@.vars.len() == VAR_SLOTS
        &&& self@.pc >= 0
    }

    /// A fresh engine: pc 0, empty stack, all variable slots zero.
    pub fn new() -> (r: Engine)
        ensures
            r.wf(),
            r@.pc == 0,
            r@.stack.len() == 0,
            r@.vars.len() == VAR_SLOTS,
            forall|i: int| 0 <= i < VAR_SLOTS ==> r@.vars[i] == 0u64,
    {
        let mut vars: Vec<u64> = Vec::new();
        let mut k: usize = 0;
        while k < VAR_SLOTS
            invariant
                k <= VAR_SLOTS,
                vars@.len() == k,
                forall|i: int| 0 <= i < k ==> vars@[i] == 0u64,
            decreases VAR_SLOTS - k,
        {
            vars.push(0);
            k = k + 1;
        }
        Engine { pc: 0, stack: Vec::new(), vars }
    }

    /// The current program counter.
    pub fn pc(&self) -> (r: usize)
        ensures
            r == self@.pc,
    {
        self.pc
    }

    /// The operand stack, bottom first.
    pub fn stack(&self) -> (r: &Vec<u64>)
        ensures
            r@ == self@.stack,
    {
        &self.stack
    }

    /// The variable bank.
    pub fn vars(&self) -> (r: &Vec<u64>)
        ensures
            r@ == self@.vars,
    {
        &self.vars
    }

    /// Executes the instruction at the current program counter and reports
    /// the host event it raises.  Implements `step_spec` exactly.
    pub fn step(&mut self, prog: &Vec<u8>) -> (ev: StepEvent)
        requires
            old(self).wf(),
            old(self)@.pc < prog@.len(),
        ensures
            final(self).wf(),
            final(self)@ == step_spec(prog@, old(self)@).state,
            ev@ == step_spec(prog@, old(self)@).event,
    {
        let n = prog.len();
        let op = prog[self.pc];
        match op {
            0x01 => {
                if self.pc + 1 < n {
                    let l = prog[self.pc + 1] as usize;
                    if l <= n - (self.pc + 2) {
                        let base = self.pc + 2;
                        let mut payload: Vec<u8> = Vec::new();
                        let mut j: usize = 0;
                        assert(payload@ =~= prog@.subrange(base as int, base as int));
                        while j < l
                            invariant
                                j <= l,
                                n == prog@.len(),
                                base + l <= n,
                                payload@ == prog@.subrange(base as int, base + j),
                            decreases l - j,
                        {
                            proof {
                                assert(prog@.subrange(base as int, base + j + 1) =~= prog
                                    @.subrange(base as int, base + j).push(prog@[base + j]));
                            }
                            payload.push(prog[base + j]);
                            j = j + 1;
                        }
                        self.pc = base + l;
                        if text::utf8_ok(&payload) {
                            StepEvent::Output(payload)
                        } else {
                            StepEvent::Quiet
                        }
                    } else {
                        self.pc = self.pc + 1;
                        StepEvent::Quiet
                    }
                } else {
                    self.pc = self.pc + 1;
                    StepEvent::Quiet
                }
            },
            0x02 | 0x03 | 0x04 | 0x05 | 0x06 | 0x07 | 0x08 | 0x13 | 0x14 | 0x15 | 0x18 | 0x19
                | 0x20 | 0x21 | 0x22 | 0x23 | 0x24 | 0x25 | 0x26 | 0x27 | 0x28 => {
                let v = Self::push_literal(op);
                self.stack.push(v);
                self.pc = self.pc + 1;
                StepEvent::Quiet
            },
            0x29 => {
                self.stack.push(12);
                self.stack.push(34);
                self.stack.push(56);
                self.pc = self.pc + 1;
                StepEvent::Quiet
            },
            0x09 | 0x10 | 0x11 => {
                if self.stack.len() >= 2 {
                    let b = self.stack.pop().unwrap();
                    let a = self.stack.pop().unwrap();
                    let r = if op == 0x09 {
                        a.wrapping_add(b)
                    } else if op == 0x10 {
                        a.wrapping_sub(b)
                    } else {
                        a.wrapping_mul(b)
                    };
                    self.stack.push(r);
                }
                self.pc = self.pc + 1;
                StepEvent::Quiet
            },
            0x12 => {
                if self.stack.len() >= 2 {
                    let b = self.stack.pop().unwrap();
                    let a = self.stack.pop().unwrap();
                    let d = if b == 0 {
                        1
                    } else {
                        b
                    };
                    self.stack.push(a / d);
                }
                // fewer than two operands: the missing divisor falls back
                // to 1, so a lone dividend goes back unchanged and an
                // empty stack stays empty
                self.pc = self.pc + 1;
                StepEvent::Quiet
            },
            0x16 => StepEvent::PowerReset(ResetKind::Cold),
            0x17 => StepEvent::PowerReset(ResetKind::Shutdown),
            0x30 => {
                self.stack.clear();
                self.pc = self.pc + 1;
                StepEvent::Quiet
            },
            0x31 => StepEvent::Halt,
            0x32 => {
                let v = match self.stack.pop() {
                    Some(v) => v,
                    None => 0,
                };
                self.vars.set(0, v);
                self.pc = self.pc + 1;
                StepEvent::Quiet
            },
            0xFF => {
                if n - self.pc >= 3 {
                    let lo = prog[self.pc + 1];
                    let hi = prog[self.pc + 2];
                    let target: u16 = lo as u16 + (hi as u16) * 256;
                    StepEvent::AwaitKey(target)
                } else {
                    self.pc = self.pc + 1;
                    StepEvent::Quiet
                }
            },
            _ => {
                self.pc = self.pc + 1;
                StepEvent::Quiet
            },
        }
    }

    /// Runs instructions until the program ends, halts, or needs the host,
    /// collecting the console outputs raised along the way.  The result is
    /// exactly `run_spec` of the starting state: the final state, the
    /// outputs in order, and the reason for stopping.
    ///
    /// On `Pause::AwaitKey` the host prints `pause_prompt`, waits for one
    /// keypress and hands its scan code to `resume_with_key`; on
    /// `Pause::PowerReset` it invokes the power service and never returns.
    #[verifier::loop_isolation(false)]
    pub fn run_to_pause(&mut self, prog: &Vec<u8>) -> (r: RunOutput)
        requires
            old(self).wf(),
        ensures
            final(self).wf(),
            final(self)@ == run_spec(prog@, old(self)@).state,
            r.pause == run_spec(prog@, old(self)@).pause,
            r.outputs@.len() == run_spec(prog@, old(self)@).outputs.len(),
            forall|i: int|
                0 <= i < r.outputs@.len() ==> r.outputs@[i]@ == run_spec(
                    prog@,
                    old(self)@,
                ).outputs[i],
            forall|i: int| 0 <= i < r.outputs@.len() ==> valid_utf8(#[trigger] r.outputs@[i]@),
    {
        let ghost total = run_spec(prog@, old(self)@);
        let mut outputs: Vec<Vec<u8>> = Vec::new();
        let ghost mut done: Seq<Seq<u8>> = Seq::empty();
        proof {
            assert(done + total.outputs =~= total.outputs);
        }
        loop
            invariant
                self.wf(),
                run_spec(prog@, self@).state == total.state,
                run_spec(prog@, self@).pause == total.pause,
                total.outputs == done + run_spec(prog@, self@).outputs,
                outputs@.len() == done.len(),
                forall|i: int| 0 <= i < done.len() ==> outputs@[i]@ == done[i],
                forall|i: int| 0 <= i < done.len() ==> valid_utf8(#[trigger] done[i]),
            decreases prog@.len() - self@.pc,
        {
            if self.pc >= prog.len() {
                proof {
                    assert(total.outputs =~= done);
                    lemma_collected_outputs_are_valid(outputs@, done);
                }
                return RunOutput { outputs, pause: Pause::EndOfProgram };
            }
            let ghost pre = self@;
            proof {
                lemma_step_advances(prog@, pre);
            }
            let ev = self.step(prog);
            match ev {
                StepEvent::Quiet => {},
                StepEvent::Output(text) => {
                    proof {
                        assert(done + (seq![text@] + run_spec(prog@, self@).outputs) =~= done.push(
                            text@,
                        ) + run_spec(prog@, self@).outputs);
                        done = done.push(text@);
                    }
                    outputs.push(text);
                },
                StepEvent::Halt => {
                    proof {
                        assert(total.outputs =~= done);
                        lemma_collected_outputs_are_valid(outputs@, done);
                    }
                    return RunOutput { outputs, pause: Pause::Halted };
                },
                StepEvent::AwaitKey(target) => {
                    proof {
                        assert(total.outputs =~= done);
                        lemma_collected_outputs_are_valid(outputs@, done);
                    }
                    return RunOutput { outputs, pause: Pause::AwaitKey(target) };
                },
                StepEvent::PowerReset(kind) => {
                    proof {
                        assert(total.outputs =~= done);
                        lemma_collected_outputs_are_valid(outputs@, done);
                    }
                    return RunOutput { outputs, pause: Pause::PowerReset(kind) };
                },
            }
        }
    }

    /// Applies the key delivered after an interactive halt; see
    /// `resume_spec`.
    pub fn resume_with_key(&mut self, prog: &Vec<u8>, scan_code: u16)
        requires
            old(self).wf(),
        ensures
            final(self).wf(),
            final(self)@ == resume_spec(prog@, old(self)@, scan_code),
    {
        if self.pc < prog.len() && prog.len() - self.pc >= 3 && prog[self.pc] == 0xFF {
            let lo = prog[self.pc + 1];
            let hi = prog[self.pc + 2];
            let target: u16 = lo as u16 + (hi as u16) * 256;
            if scan_code == SCAN_ESC && (target as usize) < prog.len() {
                self.pc = target as usize;
            } else {
                self.pc = self.pc + 3;
            }
        }
    }

    /// The literal pushed by a single-push opcode.
    fn push_literal(op: u8) -> (r: u64)
        requires
            is_single_push(op),
        ensures
            r == push_const(op),
    {
        if op == 0x02 {
            2
        } else if op == 0x03 {
            3
        } else if op == 0x04 {
            42
        } else if op == 0x05 {
            0x53545249
        } else if op == 0x06 {
            99
        } else if op == 0x07 {
            0x57414954
        } else if op == 0x08 {
            0x53544400
        } else if op == 0x13 {
            0xDEADBEEF
        } else if op == 0x14 {
            0xCAFEBABE
        } else if op == 0x15 {
            0xFEEDFACE
        } else if op == 0x18 {
            0xB105F00D
        } else if op == 0x19 {
            0xB007B007
        } else if op == 0x20 {
            0x10AD10AD
        } else if op == 0x21 {
            0xC0DECAFE
        } else if op == 0x22 {
            0x7E57C0DE
        } else if op == 0x23 {
            0x0BADC0DE
        } else if op == 0x24 {
            0xFACEFEED
        } else if op == 0x25 {
            0xC001D00D
        } else if op == 0x26 {
            0xBEEFBEEF
        } else if op == 0x27 {
            0xF00DF00D
        } else {
            0xB16B00B5
        }
    }
}

} // verus!
