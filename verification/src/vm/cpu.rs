//! The execution engine.
//!
//! The engine owns the program (an immutable, index-addressed sequence of
//! 32-bit words), the operand stack of signed 16-bit values, the two
//! condition flags, the program counter and the call-frame stack, and runs
//! the fetch-decode-execute loop. Its whole behaviour is pinned down by the
//! small-step semantics [`step_spec`]: [`CPU::execute_instruction`] performs
//! exactly one such step, and [`CPU::run`] is repeated stepping until the
//! program halts or faults.
//!
//! Defined behaviour chosen where the machine's edges need one:
//! - every branch and call opcode selects its addressing mode uniformly by
//!   `operand2` — `2` backward-relative, `1` forward-relative, anything else
//!   absolute;
//! - a taken branch whose target lies outside the program faults at once
//!   with [`FaultKind::OutOfProgram`], the same kind that running off the
//!   end of the program raises;
//! - arithmetic wraps in two's complement (so `i16::MIN / -1` gives
//!   `i16::MIN` and `i16::MIN % -1` gives `0`), while a zero divisor is the
//!   fault [`FaultKind::ArithmeticFault`];
//! - `RETURN` with only the root frame left is the fault
//!   [`FaultKind::CallStackUnderflow`];
//! - a faulting step leaves the machine state exactly as it was.

use std::io::Write;
use vstd::prelude::*;

use crate::vm::frame::Frame;
use crate::vm::frame::FrameModel;
use crate::vm::instruction::Opcode;
use crate::vm::instruction::spec_decode;

verus! {

use vstd::wrapping::i16_specs;

/// The kinds of fault that can end a run. A fault is terminal: the engine
/// stops cleanly and reports, it never continues past one.
#[derive(Copy, Clone, PartialEq, Eq, Structural, Debug)]
pub enum FaultKind {
    /// The decoded opcode is the illegal sentinel.
    IllegalOpcode,
    /// An opcode needed more operand-stack values than there were.
    StackUnderflow,
    /// `RETURN` with no caller frame left to return to.
    CallStackUnderflow,
    /// `LOAD` from a slot the current frame never stored.
    UnknownVariable,
    /// `STDIN` read a line that does not parse as a signed 16-bit integer.
    InputParseFailure,
    /// Division or modulo by a zero divisor.
    ArithmeticFault,
    /// A binary image whose byte length is not a multiple of four.
    MisalignedBinary,
    /// The program counter left the program: the run reached the end of the
    /// program, or a taken branch aimed outside it.
    OutOfProgram,
    /// The run's step budget — `u64::MAX` instructions — ran out. No
    /// program that ever terminates by itself comes near the budget; it
    /// exists so that [`CPU::run`] provably terminates on every program,
    /// looping ones included.
    StepLimitReached,
}

/// What one executed instruction did to the control flow.
#[derive(Copy, Clone, PartialEq, Eq, Structural, Debug)]
pub enum StepEvent {
    /// The instruction finished and the program counter should advance by
    /// one.
    Continue,
    /// The instruction reassigned the program counter itself.
    Jumped,
    /// `HALT`: the run ends successfully.
    Halted,
    /// The run ends with this fault.
    Faulted(FaultKind),
}

/// A fault report: the kind, the failing address, and the instruction
/// decoded there — `None` only when the program counter itself lay outside
/// the program, so that there was no word to decode.
#[derive(Copy, Clone, PartialEq, Eq, Debug)]
pub struct Fault {
    pub kind: FaultKind,
    pub address: usize,
    pub instruction: Option<(Opcode, i16, i8)>,
}

/// The mathematical view of the engine.
pub struct MachineState {
    pub program: Seq<u32>,
    pub pc: int,
    pub stack: Seq<i16>,
    pub frames: Seq<FrameModel>,
    pub zero_flag: bool,
    pub sign_flag: bool,
}

/// Well-formedness of a machine state: the frame stack is never empty (index
/// zero is the root frame of the entry context), and every frame a `CALL`
/// made remembers a return address inside the program, so that resuming
/// there is always meaningful.
pub open spec fn wf(s: MachineState) -> bool {
    &&& s.frames.len() >= 1
    &&& 0 <= s.pc
    &&& forall|i: int|
        1 <= i < s.frames.len() ==> 0 <= (#[trigger] s.frames[i].return_address)
            < s.program.len()
}

/// The instruction the program counter points at, decoded.
pub open spec fn fetched(s: MachineState) -> (Opcode, i16, i8)
    recommends
        0 <= s.pc < s.program.len(),
{
    spec_decode(s.program[s.pc])
}

/// Truncating (round-toward-zero) integer division, the division of the
/// machine's `DIV` opcode.
pub open spec fn div_trunc(a: int, b: int) -> int
    recommends
        b != 0,
{
    let q = (vstd::math::abs(a) as int) / (vstd::math::abs(b) as int);
    if (a < 0) != (b < 0) {
        -q
    } else {
        q
    }
}

/// The remainder matching [`div_trunc`]: it satisfies
/// `a == b * div_trunc(a, b) + rem_trunc(a, b)` and takes the sign of the
/// dividend.
pub open spec fn rem_trunc(a: int, b: int) -> int
    recommends
        b != 0,
{
    a - b * div_trunc(a, b)
}

/// The value a binary arithmetic opcode pushes for `n2 OP n1`, where `n1`
/// was on top of the stack and `n2` below it. Addition, subtraction,
/// multiplication and comparison wrap in two's complement; division and
/// modulo truncate toward zero, with the single overflowing case
/// (`i16::MIN` by `-1`) wrapped likewise.
pub open spec fn arith_result(op: Opcode, n2: i16, n1: i16) -> i16
    recommends
        (op == Opcode::DIV || op == Opcode::MOD) ==> n1 != 0,
{
    match op {
        Opcode::ADD => i16_specs::wrapping_add(n2, n1),
        Opcode::SUB => i16_specs::wrapping_sub(n2, n1),
        Opcode::MUL => i16_specs::wrapping_mul(n2, n1),
        Opcode::CMP => i16_specs::wrapping_sub(n2, n1),
        Opcode::DIV => if n2 == i16::MIN && n1 == -1 {
            i16::MIN
        } else {
            div_trunc(n2 as int, n1 as int) as i16
        },
        Opcode::MOD => if n2 == i16::MIN && n1 == -1 {
            0
        } else {
            rem_trunc(n2 as int, n1 as int) as i16
        },
        _ => 0,
    }
}

/// The state with its flags set from `result`, the value an arithmetic or
/// compare opcode just pushed: the zero flag says the result is zero, and
/// the sign flag says it is strictly positive — but is left as it was when
/// the result is zero.
pub open spec fn with_flags(s: MachineState, result: i16) -> MachineState {
    MachineState {
        zero_flag: result == 0,
        sign_flag: if result == 0 {
            s.sign_flag
        } else {
            result > 0
        },
        ..s
    }
}

/// Where a taken branch or call goes: `operand2` selects the addressing
/// mode — `2` backward-relative, `1` forward-relative, anything else
/// absolute.
pub open spec fn branch_target(pc: int, operand1: i16, operand2: i8) -> int {
    if operand2 == 2 {
        pc - operand1
    } else if operand2 == 1 {
        pc + operand1
    } else {
        operand1 as int
    }
}

/// Whether a branch opcode is taken under the given flags. `JE`/`JNE` test
/// the zero flag, `JG`/`JL` the sign flag, `JGE` and `JLE` combine them;
/// `JMP` and `CALL` are unconditional.
pub open spec fn branch_taken(op: Opcode, zero_flag: bool, sign_flag: bool) -> bool {
    match op {
        Opcode::JMP => true,
        Opcode::CALL => true,
        Opcode::JE => zero_flag,
        Opcode::JNE => !zero_flag,
        Opcode::JG => sign_flag,
        Opcode::JL => !sign_flag,
        Opcode::JGE => sign_flag || zero_flag,
        Opcode::JLE => !sign_flag || zero_flag,
        _ => false,
    }
}

/// The outcome of a conditional or unconditional branch step.
pub open spec fn branch_step(s: MachineState, op: Opcode, operand1: i16, operand2: i8) -> (
    MachineState,
    StepEvent,
) {
    if branch_taken(op, s.zero_flag, s.sign_flag) {
        let target = branch_target(s.pc, operand1, operand2);
        if 0 <= target < s.program.len() {
            (MachineState { pc: target, ..s }, StepEvent::Jumped)
        } else {
            (s, StepEvent::Faulted(FaultKind::OutOfProgram))
        }
    } else {
        (s, StepEvent::Continue)
    }
}

/// The outcome of a binary arithmetic or compare step: pop `n1`, pop `n2`,
/// push `n2 OP n1` and set the flags from it.
pub open spec fn arith_step(s: MachineState, op: Opcode) -> (MachineState, StepEvent) {
    if s.stack.len() < 2 {
        (s, StepEvent::Faulted(FaultKind::StackUnderflow))
    } else {
        let n1 = s.stack[s.stack.len() - 1];
        let n2 = s.stack[s.stack.len() - 2];
        if (op == Opcode::DIV || op == Opcode::MOD) && n1 == 0 {
            (s, StepEvent::Faulted(FaultKind::ArithmeticFault))
        } else {
            let result = arith_result(op, n2, n1);
            let pushed = MachineState {
                stack: s.stack.take(s.stack.len() - 2).push(result),
                ..s
            };
            (with_flags(pushed, result), StepEvent::Continue)
        }
    }
}

/// The small-step semantics: what executing the instruction at the program
/// counter does to the state, and how it ends. `input` is the value the
/// standard-input channel yielded — `None` for a line that did not parse —
/// and is read by `STDIN` alone. A step that faults returns the state
/// unchanged.
pub open spec fn step_spec(s: MachineState, input: Option<i16>) -> (MachineState, StepEvent) {
    if !(0 <= s.pc < s.program.len()) {
        (s, StepEvent::Faulted(FaultKind::OutOfProgram))
    } else {
        let decoded = fetched(s);
        let op = decoded.0;
        let operand1 = decoded.1;
        let operand2 = decoded.2;
        match op {
            Opcode::HALT => (s, StepEvent::Halted),
            Opcode::ILG => (s, StepEvent::Faulted(FaultKind::IllegalOpcode)),
            Opcode::LEN => (
                MachineState {
                    stack: s.stack.push(i16_specs::signed_crop(s.stack.len() as int)),
                    ..s
                },
                StepEvent::Continue,
            ),
            Opcode::POP => if s.stack.len() == 0 {
                (s, StepEvent::Faulted(FaultKind::StackUnderflow))
            } else {
                (MachineState { stack: s.stack.drop_last(), ..s }, StepEvent::Continue)
            },
            Opcode::PUSH => (
                MachineState { stack: s.stack.push(operand1), ..s },
                StepEvent::Continue,
            ),
            Opcode::DUP => if s.stack.len() == 0 {
                (s, StepEvent::Faulted(FaultKind::StackUnderflow))
            } else {
                (MachineState { stack: s.stack.push(s.stack.last()), ..s }, StepEvent::Continue)
            },
            Opcode::ADD => arith_step(s, op),
            Opcode::SUB => arith_step(s, op),
            Opcode::MUL => arith_step(s, op),
            Opcode::DIV => arith_step(s, op),
            Opcode::MOD => arith_step(s, op),
            Opcode::CMP => arith_step(s, op),
            Opcode::JMP => branch_step(s, op, operand1, operand2),
            Opcode::JE => branch_step(s, op, operand1, operand2),
            Opcode::JNE => branch_step(s, op, operand1, operand2),
            Opcode::JG => branch_step(s, op, operand1, operand2),
            Opcode::JL => branch_step(s, op, operand1, operand2),
            Opcode::JGE => branch_step(s, op, operand1, operand2),
            Opcode::JLE => branch_step(s, op, operand1, operand2),
            Opcode::STDIN => match input {
                Some(value) => (
                    MachineState { stack: s.stack.push(value), ..s },
                    StepEvent::Continue,
                ),
                None => (s, StepEvent::Faulted(FaultKind::InputParseFailure)),
            },
            Opcode::STDOUT => if s.stack.len() == 0 {
                (s, StepEvent::Faulted(FaultKind::StackUnderflow))
            } else {
                (s, StepEvent::Continue)
            },
            Opcode::LOAD => {
                let frame = s.frames.last();
                if frame.variables.contains_key(operand1) {
                    (
                        MachineState { stack: s.stack.push(frame.variables[operand1]), ..s },
                        StepEvent::Continue,
                    )
                } else {
                    (s, StepEvent::Faulted(FaultKind::UnknownVariable))
                }
            },
            Opcode::STORE => if s.stack.len() == 0 {
                (s, StepEvent::Faulted(FaultKind::StackUnderflow))
            } else {
                let top = s.frames.len() - 1;
                let updated = FrameModel {
                    variables: s.frames[top].variables.insert(operand1, s.stack.last()),
                    return_address: s.frames[top].return_address,
                };
                (
                    MachineState {
                        stack: s.stack.drop_last(),
                        frames: s.frames.update(top, updated),
                        ..s
                    },
                    StepEvent::Continue,
                )
            },
            Opcode::CALL => {
                let target = branch_target(s.pc, operand1, operand2);
                if 0 <= target < s.program.len() {
                    (
                        MachineState {
                            pc: target,
                            frames: s.frames.push(
                                FrameModel {
                                    variables: Map::<i16, i16>::empty(),
                                    return_address: s.pc,
                                },
                            ),
                            ..s
                        },
                        StepEvent::Jumped,
                    )
                } else {
                    (s, StepEvent::Faulted(FaultKind::OutOfProgram))
                }
            },
            Opcode::RETURN => if s.frames.len() <= 1 {
                (s, StepEvent::Faulted(FaultKind::CallStackUnderflow))
            } else {
                (
                    MachineState {
                        pc: s.frames.last().return_address,
                        frames: s.frames.drop_last(),
                        ..s
                    },
                    StepEvent::Continue,
                )
            },
        }
    }
}

/// Whether the instruction at the program counter is `STDIN`, the one opcode
/// whose step depends on the environment.
pub open spec fn at_stdin(s: MachineState) -> bool {
    0 <= s.pc < s.program.len() && fetched(s).0 == Opcode::STDIN
}

/// The state after the run loop advances past an instruction that neither
/// jumped nor ended the run.
pub open spec fn advance_pc(s: MachineState) -> MachineState {
    MachineState { pc: s.pc + 1, ..s }
}

/// One iteration of the run loop under a given input: a step that continued,
/// followed by the program counter advancing, or a step that jumped.
pub open spec fn step_goes_to(s1: MachineState, s2: MachineState, input: Option<i16>) -> bool {
    let stepped = step_spec(s1, input);
    ||| (stepped.1 == StepEvent::Continue && s2 == advance_pc(stepped.0))
    ||| (stepped.1 == StepEvent::Jumped && s2 == stepped.0)
}

/// One iteration of the run loop, for some input.
pub open spec fn advances(s1: MachineState, s2: MachineState) -> bool {
    exists|input: Option<i16>| step_goes_to(s1, s2, input)
}

/// `t` records a run from `s1` to `s2`: every consecutive pair is one
/// iteration of the run loop.
pub open spec fn is_path(t: Seq<MachineState>, s1: MachineState, s2: MachineState) -> bool {
    &&& t.len() >= 1
    &&& t[0] == s1
    &&& t[t.len() - 1] == s2
    &&& forall|i: int| 0 <= i < t.len() - 1 ==> advances(#[trigger] t[i], t[i + 1])
}

/// `s2` is reachable from `s1` by some number of run-loop iterations.
pub open spec fn reaches(s1: MachineState, s2: MachineState) -> bool {
    exists|t: Seq<MachineState>| is_path(t, s1, s2)
}

/// Whether the program counter rests on a `HALT` instruction.
pub open spec fn at_halt(s: MachineState) -> bool {
    0 <= s.pc < s.program.len() && fetched(s).0 == Opcode::HALT
}

/// What a halting run yields: the stack top, or zero when the stack is
/// empty.
pub open spec fn halt_value(s: MachineState) -> i16 {
    if s.stack.len() > 0 {
        s.stack.last()
    } else {
        0
    }
}

/// The state the engine is left in after yielding [`halt_value`]: the
/// yielded top is popped.
pub open spec fn halt_state(s: MachineState) -> MachineState {
    if s.stack.len() > 0 {
        MachineState { stack: s.stack.drop_last(), ..s }
    } else {
        s
    }
}

/// The execution engine.
pub struct CPU {
    program: Vec<u32>,
    current_address: usize,
    pub stack: Vec<i16>,
    pub call_stack: Vec<Frame>,
    zero_flag: bool,
    sign_flag: bool,
}

impl View for CPU {
    type V = MachineState;

    closed spec fn view(&self) -> MachineState {
        MachineState {
            program: self.program@,
            pc: self.current_address as int,
            stack: self.stack@,
            frames: Seq::new(self.call_stack@.len(), |i: int| self.call_stack@[i]@),
            zero_flag: self.zero_flag,
            sign_flag: self.sign_flag,
        }
    }
}

/// Relies on `std::io::Stdin::read_line` and `str::parse::<i16>`: reads one
/// line from the standard input channel — blocking until it arrives — and
/// parses it, once trimmed, as a signed 16-bit integer; `None` on a read
/// error or a line that does not parse. Nothing is promised of the result:
/// it depends on the process's environment, not on any argument.
#[verifier::external_body]
fn read_int_line() -> (value: Option<i16>) {
    let mut line = String::new();
    match std::io::stdin().read_line(&mut line) {
        Ok(_) => match line.trim().parse::<i16>() {
            Ok(v) => Some(v),
            Err(_) => None,
        },
        Err(_) => None,
    }
}

/// Relies on `write!` and `writeln!` to standard output: prints the peeked
/// value in the representation `mode` selects — `3` low byte as character,
/// no newline; `2` low byte as decimal, no newline; `1` low byte as
/// character with newline; anything else decimal with newline — flushing
/// where no newline follows. Takes the value by copy and touches no machine
/// state.
#[verifier::external_body]
fn write_value(value: i16, mode: i8) {
    let mut out = std::io::stdout();
    if mode == 3 {
        let _ = write!(out, "{}", value as u8 as char);
        let _ = out.flush();
    } else if mode == 2 {
        let _ = write!(out, "{}", value as u8);
        let _ = out.flush();
    } else if mode == 1 {
        let _ = writeln!(out, "{}", value as u8 as char);
    } else {
        let _ = writeln!(out, "{}", value);
    }
}

impl CPU {
    /// A fresh engine over `program`: empty operand stack, cleared flags,
    /// program counter at zero, and the root call frame alone on the frame
    /// stack, carrying the sentinel `usize::MAX` in place of a return
    /// address since the entry context has no caller.
    pub fn new(program: Vec<u32>) -> (cpu: CPU)
        ensures
            cpu@.program == program@,
            cpu@.pc == 0,
            cpu@.stack == Seq::<i16>::empty(),
            cpu@.frames.len() == 1,
            cpu@.frames[0].variables == Map::<i16, i16>::empty(),
            cpu@.frames[0].return_address == usize::MAX as int,
            cpu@.zero_flag == false,
            cpu@.sign_flag == false,
            wf(cpu@),
    {
        CPU {
            program,
            current_address: 0,
            stack: Vec::new(),
            call_stack: vec![Frame::new(usize::MAX)],
            sign_flag: false,
            zero_flag: false,
        }
    }

    /// Sets the flags from the stack top — the result an arithmetic or
    /// compare opcode just pushed — without changing the stack: the zero
    /// flag says the top is zero; the sign flag says it is strictly
    /// positive, and keeps its old value when the top is zero.
    pub fn set_flags(&mut self)
        requires
            old(self)@.stack.len() > 0,
        ensures
            final(self)@ == with_flags(old(self)@, old(self)@.stack.last()),
    {
        let result = self.stack.pop().unwrap();
        match result {
            0 => self.zero_flag = true,
            _ => {
                self.zero_flag = false;
                self.sign_flag = result > 0;
            },
        }
        self.stack.push(result);
        proof {
            assert(self@.stack =~= old(self)@.stack);
            assert(self@.frames =~= old(self)@.frames);
        }
    }

    /// Executes one binary arithmetic or compare opcode: pops `n1` then
    /// `n2`, pushes `n2 OP n1` and sets the flags from the result — faulting
    /// instead, with the state untouched, on a short stack or a zero
    /// divisor.
    fn arith(&mut self, opcode: Opcode) -> (event: StepEvent)
        requires
            opcode == Opcode::ADD || opcode == Opcode::SUB || opcode == Opcode::MUL || opcode
                == Opcode::DIV || opcode == Opcode::MOD || opcode == Opcode::CMP,
        ensures
            (final(self)@, event) == arith_step(old(self)@, opcode),
    {
        if self.stack.len() < 2 {
            return StepEvent::Faulted(FaultKind::StackUnderflow);
        }
        let peek = self.stack[self.stack.len() - 1];
        let divmod = matches!(opcode, Opcode::DIV | Opcode::MOD);
        if divmod && peek == 0 {
            return StepEvent::Faulted(FaultKind::ArithmeticFault);
        }
        let n1 = self.stack.pop().unwrap();
        let n2 = self.stack.pop().unwrap();
        let result: i16 = match opcode {
            Opcode::ADD => n2.wrapping_add(n1),
            Opcode::SUB => n2.wrapping_sub(n1),
            Opcode::MUL => n2.wrapping_mul(n1),
            Opcode::CMP => n2.wrapping_sub(n1),
            Opcode::DIV => {
                proof {
                    lemma_exec_div(n2, n1);
                }
                match n2.checked_div(n1) {
                    Some(q) => q,
                    None => i16::MIN,
                }
            },
            Opcode::MOD => {
                proof {
                    lemma_exec_rem(n2, n1);
                }
                match n2.checked_rem(n1) {
                    Some(r) => r,
                    None => 0,
                }
            },
            _ => {
                proof {
                    assert(false);
                }
                0
            },
        };
        self.stack.push(result);
        proof {
            assert(result == arith_result(opcode, n2, n1));
            assert(self@.stack =~= old(self)@.stack.take(old(self)@.stack.len() - 2).push(result));
            assert(self@.frames =~= old(self)@.frames);
        }
        let ghost mid = self@;
        self.set_flags();
        proof {
            assert(self@ == with_flags(mid, result));
            assert((self@, StepEvent::Continue) == arith_step(old(self)@, opcode));
        }
        StepEvent::Continue
    }

    /// Executes one branch opcode: tests its flag condition and either
    /// reassigns the program counter or falls through; a taken branch whose
    /// target lies outside the program faults with the state untouched.
    fn branch(&mut self, opcode: Opcode, operand1: i16, operand2: i8) -> (event: StepEvent)
        requires
            opcode == Opcode::JMP || opcode == Opcode::JE || opcode == Opcode::JNE || opcode
                == Opcode::JG || opcode == Opcode::JL || opcode == Opcode::JGE || opcode
                == Opcode::JLE,
        ensures
            (final(self)@, event) == branch_step(old(self)@, opcode, operand1, operand2),
    {
        let taken = match opcode {
            Opcode::JMP => true,
            Opcode::JE => self.zero_flag,
            Opcode::JNE => !self.zero_flag,
            Opcode::JG => self.sign_flag,
            Opcode::JL => !self.sign_flag,
            Opcode::JGE => self.sign_flag || self.zero_flag,
            Opcode::JLE => !self.sign_flag || self.zero_flag,
            _ => {
                proof {
                    assert(false);
                }
                false
            },
        };
        if !taken {
            return StepEvent::Continue;
        }
        let pc = self.current_address as i128;
        let target: i128 = if operand2 == 2 {
            pc - operand1 as i128
        } else if operand2 == 1 {
            pc + operand1 as i128
        } else {
            operand1 as i128
        };
        if 0 <= target && target < self.program.len() as i128 {
            self.current_address = target as usize;
            proof {
                assert(self@.frames =~= old(self)@.frames);
            }
            StepEvent::Jumped
        } else {
            StepEvent::Faulted(FaultKind::OutOfProgram)
        }
    }

    /// Executes exactly one instruction — fetch, decode, dispatch — and
    /// reports how control left it: fell through, jumped, halted or
    /// faulted. The transition is exactly one step of [`step_spec`]; only
    /// `STDIN` consults the environment, so only there is the step's input
    /// existentially quantified.
    pub fn execute_instruction(&mut self) -> (event: StepEvent)
        requires
            wf(old(self)@),
        ensures
            !at_stdin(old(self)@) ==> (final(self)@, event) == step_spec(old(self)@, None),
            at_stdin(old(self)@) ==> exists|input: Option<i16>|
                (final(self)@, event) == step_spec(old(self)@, input),
    {
        if self.current_address >= self.program.len() {
            return StepEvent::Faulted(FaultKind::OutOfProgram);
        }
        let decoded = Opcode::decode(self.program[self.current_address]);
        let opcode = decoded.0;
        let operand1 = decoded.1;
        let operand2 = decoded.2;
        match opcode {
            Opcode::HALT => StepEvent::Halted,
            Opcode::ILG => StepEvent::Faulted(FaultKind::IllegalOpcode),
            Opcode::LEN => {
                let m = self.stack.len() % 0x1_0000;
                let value: i16 = if m >= 0x8000 {
                    (m as i64 - 0x1_0000) as i16
                } else {
                    m as i16
                };
                self.stack.push(value);
                proof {
                    assert(self@.stack =~= old(self)@.stack.push(
                        i16_specs::signed_crop(old(self)@.stack.len() as int),
                    ));
                    assert(self@.frames =~= old(self)@.frames);
                }
                StepEvent::Continue
            },
            Opcode::POP => {
                if self.stack.len() == 0 {
                    return StepEvent::Faulted(FaultKind::StackUnderflow);
                }
                let _ = self.stack.pop();
                proof {
                    assert(self@.stack =~= old(self)@.stack.drop_last());
                    assert(self@.frames =~= old(self)@.frames);
                }
                StepEvent::Continue
            },
            Opcode::PUSH => {
                self.stack.push(operand1);
                proof {
                    assert(self@.stack =~= old(self)@.stack.push(operand1));
                    assert(self@.frames =~= old(self)@.frames);
                }
                StepEvent::Continue
            },
            Opcode::DUP => {
                if self.stack.len() == 0 {
                    return StepEvent::Faulted(FaultKind::StackUnderflow);
                }
                let top = self.stack[self.stack.len() - 1];
                self.stack.push(top);
                proof {
                    assert(self@.stack =~= old(self)@.stack.push(old(self)@.stack.last()));
                    assert(self@.frames =~= old(self)@.frames);
                }
                StepEvent::Continue
            },
            Opcode::ADD | Opcode::SUB | Opcode::MUL | Opcode::DIV | Opcode::MOD | Opcode::CMP => {
                self.arith(opcode)
            },
            Opcode::JMP | Opcode::JE | Opcode::JNE | Opcode::JG | Opcode::JL | Opcode::JGE
                | Opcode::JLE => self.branch(opcode, operand1, operand2),
            Opcode::STDIN => {
                match read_int_line() {
                    Some(value) => {
                        self.stack.push(value);
                        proof {
                            assert(self@.stack =~= old(self)@.stack.push(value));
                            assert(self@.frames =~= old(self)@.frames);
                            assert((self@, StepEvent::Continue) == step_spec(
                                old(self)@,
                                Some(value),
                            ));
                        }
                        StepEvent::Continue
                    },
                    None => {
                        proof {
                            assert((self@, StepEvent::Faulted(FaultKind::InputParseFailure))
                                == step_spec(old(self)@, None));
                        }
                        StepEvent::Faulted(FaultKind::InputParseFailure)
                    },
                }
            },
            Opcode::STDOUT => {
                if self.stack.len() == 0 {
                    return StepEvent::Faulted(FaultKind::StackUnderflow);
                }
                let value = self.stack[self.stack.len() - 1];
                write_value(value, operand2);
                StepEvent::Continue
            },
            Opcode::LOAD => {
                let top = self.call_stack.len() - 1;
                let loaded = match self.call_stack[top].load(&operand1) {
                    Some(v) => Some(*v),
                    None => None,
                };
                match loaded {
                    Some(value) => {
                        self.stack.push(value);
                        proof {
                            assert(self@.stack =~= old(self)@.stack.push(
                                old(self)@.frames.last().variables[operand1],
                            ));
                            assert(self@.frames =~= old(self)@.frames);
                        }
                        StepEvent::Continue
                    },
                    None => StepEvent::Faulted(FaultKind::UnknownVariable),
                }
            },
            Opcode::STORE => {
                if self.stack.len() == 0 {
                    return StepEvent::Faulted(FaultKind::StackUnderflow);
                }
                let value = self.stack.pop().unwrap();
                let mut frame = self.call_stack.pop().unwrap();
                frame.store(operand1, value);
                self.call_stack.push(frame);
                proof {
                    let s = old(self)@;
                    let top = s.frames.len() - 1;
                    assert(self@.stack =~= s.stack.drop_last());
                    assert(self@.frames =~= s.frames.update(
                        top,
                        FrameModel {
                            variables: s.frames[top].variables.insert(operand1, s.stack.last()),
                            return_address: s.frames[top].return_address,
                        },
                    ));
                }
                StepEvent::Continue
            },
            Opcode::CALL => {
                let pc = self.current_address as i128;
                let target: i128 = if operand2 == 2 {
                    pc - operand1 as i128
                } else if operand2 == 1 {
                    pc + operand1 as i128
                } else {
                    operand1 as i128
                };
                if 0 <= target && target < self.program.len() as i128 {
                    let frame = Frame::new(self.current_address);
                    self.call_stack.push(frame);
                    self.current_address = target as usize;
                    proof {
                        assert(self@.frames =~= old(self)@.frames.push(
                            FrameModel {
                                variables: Map::<i16, i16>::empty(),
                                return_address: old(self)@.pc,
                            },
                        ));
                        assert(self@.stack =~= old(self)@.stack);
                    }
                    StepEvent::Jumped
                } else {
                    StepEvent::Faulted(FaultKind::OutOfProgram)
                }
            },
            Opcode::RETURN => {
                if self.call_stack.len() <= 1 {
                    return StepEvent::Faulted(FaultKind::CallStackUnderflow);
                }
                let frame = self.call_stack.pop().unwrap();
                self.current_address = frame.return_address();
                proof {
                    let s = old(self)@;
                    assert(frame@ == s.frames[s.frames.len() - 1]);
                    assert(self@.frames =~= s.frames.drop_last());
                    assert(self@.stack =~= s.stack);
                }
                StepEvent::Continue
            },
        }
    }

    /// Drives the machine to termination: repeated
    /// [`CPU::execute_instruction`], advancing the program counter by one
    /// after every instruction that neither jumped nor ended the run. On
    /// `HALT` the run succeeds and yields the stack top — popped — or zero
    /// when the stack is empty. On a fault it stops cleanly and reports the
    /// kind, the failing address and the instruction decoded there, the
    /// state left exactly as the faulting step found it. The contract ties
    /// the outcome to the small-step semantics: some run-loop path leads
    /// from the starting state to the halting or faulting one.
    ///
    /// A run is bounded at `u64::MAX` executed instructions, a budget no
    /// terminating program comes near; it makes this loop provably
    /// terminating, and a run that exhausts it ends with
    /// [`FaultKind::StepLimitReached`].
    pub fn run(&mut self) -> (outcome: Result<i16, Fault>)
        requires
            wf(old(self)@),
        ensures
            match outcome {
                Ok(value) => exists|s: MachineState|
                    {
                        &&& #[trigger] reaches(old(self)@, s)
                        &&& at_halt(s)
                        &&& value == halt_value(s)
                        &&& final(self)@ == halt_state(s)
                    },
                Err(fault) => {
                    ||| exists|s: MachineState, input: Option<i16>|
                        #![trigger reaches(old(self)@, s), step_spec(s, input)]
                        {
                            &&& reaches(old(self)@, s)
                            &&& step_spec(s, input) == (s, StepEvent::Faulted(fault.kind))
                            &&& final(self)@ == s
                            &&& fault.address as int == s.pc
                            &&& fault.instruction == (if 0 <= s.pc < s.program.len() {
                                Some(fetched(s))
                            } else {
                                None::<(Opcode, i16, i8)>
                            })
                        }
                    ||| (fault.kind == FaultKind::StepLimitReached && exists|t: Seq<MachineState>|
                        #[trigger] is_path(t, old(self)@, final(self)@) && t.len() > u64::MAX)
                },
            },
    {
        let ghost start = self@;
        let ghost mut trace: Seq<MachineState> = seq![start];
        let mut budget: u64 = u64::MAX;
        loop
            invariant
                wf(self@),
                start == old(self)@,
                is_path(trace, start, self@),
                trace.len() + budget == u64::MAX + 1,
            decreases budget,
        {
            if budget == 0 {
                let address = self.current_address;
                let instruction = if self.current_address < self.program.len() {
                    Some(Opcode::decode(self.program[self.current_address]))
                } else {
                    None
                };
                return Err(Fault { kind: FaultKind::StepLimitReached, address, instruction });
            }
            budget = budget - 1;
            let ghost pre = self@;
            let event = self.execute_instruction();
            let ghost input: Option<i16> = if at_stdin(pre) {
                choose|input: Option<i16>| (self@, event) == step_spec(pre, input)
            } else {
                None
            };
            proof {
                assert((self@, event) == step_spec(pre, input));
                lemma_step_wf(pre, input);
            }
            match event {
                StepEvent::Continue => {
                    proof {
                        assert(self.program.len() == self@.program.len());
                        assert(self@.pc < self@.program.len());
                    }
                    self.current_address = self.current_address + 1;
                    proof {
                        assert(self@.frames =~= step_spec(pre, input).0.frames);
                        assert(self@ == advance_pc(step_spec(pre, input).0));
                        assert(step_goes_to(pre, self@, input));
                        lemma_path_extend(trace, start, pre, self@);
                        trace = trace.push(self@);
                    }
                },
                StepEvent::Jumped => {
                    proof {
                        assert(step_goes_to(pre, self@, input));
                        lemma_path_extend(trace, start, pre, self@);
                        trace = trace.push(self@);
                    }
                },
                StepEvent::Halted => {
                    proof {
                        assert(self@ == pre);
                        assert(at_halt(pre));
                        assert(is_path(trace, start, pre));
                        assert(reaches(start, pre));
                    }
                    if self.stack.len() > 0 {
                        let value = self.stack.pop().unwrap();
                        proof {
                            assert(self@.stack =~= pre.stack.drop_last());
                            assert(self@.frames =~= pre.frames);
                            assert(self@ == halt_state(pre));
                        }
                        return Ok(value);
                    } else {
                        proof {
                            assert(self@ == halt_state(pre));
                        }
                        return Ok(0);
                    }
                },
                StepEvent::Faulted(kind) => {
                    let address = self.current_address;
                    let instruction = if self.current_address < self.program.len() {
                        Some(Opcode::decode(self.program[self.current_address]))
                    } else {
                        None
                    };
                    proof {
                        assert(self@ == pre);
                        assert(is_path(trace, start, pre));
                        assert(reaches(start, pre));
                    }
                    return Err(Fault { kind, address, instruction });
                },
            }
        }
    }
}

/// One step preserves well-formedness and the program, keeps the program
/// counter inside the program whenever the run goes on, and leaves the state
/// exactly as it was on `HALT` or on any fault.
pub proof fn lemma_step_wf(s: MachineState, input: Option<i16>)
    requires
        wf(s),
    ensures
        wf(step_spec(s, input).0),
        step_spec(s, input).0.program == s.program,
        (step_spec(s, input).1 == StepEvent::Continue || step_spec(s, input).1
            == StepEvent::Jumped) ==> 0 <= step_spec(s, input).0.pc < s.program.len(),
        (step_spec(s, input).1 == StepEvent::Halted || step_spec(s, input).1 matches
            StepEvent::Faulted(_)) ==> step_spec(s, input).0 == s,
{
}

/// Appending one more run-loop iteration to a recorded run yields a recorded
/// run.
proof fn lemma_path_extend(t: Seq<MachineState>, s1: MachineState, s2: MachineState, s3: MachineState)
    requires
        is_path(t, s1, s2),
        advances(s2, s3),
    ensures
        is_path(t.push(s3), s1, s3),
{
    let t2 = t.push(s3);
    assert forall|i: int| 0 <= i < t2.len() - 1 implies advances(#[trigger] t2[i], t2[i + 1]) by {
        if i < t.len() - 1 {
            assert(advances(t[i], t[i + 1]));
            assert(t2[i] == t[i] && t2[i + 1] == t[i + 1]);
        } else {
            assert(t2[i] == s2 && t2[i + 1] == s3);
        }
    }
}

/// Addressing modes agree: an absolute branch carrying the target itself,
/// a forward-relative branch from any source address at distance `fwd`
/// before the target, and a backward-relative branch from any source
/// address at distance `back` after it, all land on the same program
/// counter.
pub proof fn lemma_addressing_modes_agree(
    target: i16,
    pc_abs: int,
    pc_fwd: int,
    fwd: i16,
    pc_back: int,
    back: i16,
)
    requires
        pc_fwd + fwd == target as int,
        pc_back - back == target as int,
    ensures
        branch_target(pc_abs, target, 0) == target as int,
        branch_target(pc_fwd, fwd, 1) == target as int,
        branch_target(pc_back, back, 2) == target as int,
{
}

/// An idempotent peek: `STDOUT` writes a representation of the stack top
/// outward but leaves the whole machine state — the stack and so its depth
/// above all — exactly as it was, whether or not there was a value to peek.
pub proof fn lemma_stdout_preserves_state(s: MachineState, input: Option<i16>)
    requires
        0 <= s.pc < s.program.len(),
        fetched(s).0 == Opcode::STDOUT,
    ensures
        step_spec(s, input).0 == s,
{
}

/// Every step but one at `STDIN` is deterministic: the input the
/// environment yields is read by `STDIN` alone, so everywhere else the step
/// does not depend on it.
pub proof fn lemma_step_deterministic(s: MachineState, i1: Option<i16>, i2: Option<i16>)
    requires
        !at_stdin(s),
    ensures
        step_spec(s, i1) == step_spec(s, i2),
{
}

/// `CMP` computes and pushes exactly what `SUB` does, flags included: the
/// two differ in intent alone, not in arithmetic.
pub proof fn lemma_cmp_is_sub(s: MachineState, n2: i16, n1: i16)
    ensures
        arith_result(Opcode::CMP, n2, n1) == arith_result(Opcode::SUB, n2, n1),
        arith_step(s, Opcode::CMP) == arith_step(s, Opcode::SUB),
{
}

/// `POP` on an empty stack is the fault `StackUnderflow`, with the machine
/// state untouched: the run stops there and reports, it does not crash on.
pub proof fn lemma_pop_underflow_faults(s: MachineState, input: Option<i16>)
    requires
        0 <= s.pc < s.program.len(),
        fetched(s).0 == Opcode::POP,
        s.stack.len() == 0,
    ensures
        step_spec(s, input) == (s, StepEvent::Faulted(FaultKind::StackUnderflow)),
{
}

/// Call isolation, one step at a time: no single instruction touches a
/// frame that lies strictly below the top of the call stack. `STORE` writes
/// only into the current frame, `CALL` only adds a frame above, `RETURN`
/// only removes the top one; every deeper frame survives in place.
pub proof fn lemma_step_preserves_deep_frames(s1: MachineState, s2: MachineState, i: int)
    requires
        advances(s1, s2),
        0 <= i < s1.frames.len() - 1,
    ensures
        i < s2.frames.len(),
        s2.frames[i] == s1.frames[i],
{
    let input = choose|input: Option<i16>| step_goes_to(s1, s2, input);
    assert(step_goes_to(s1, s2, input));
}

/// Call isolation along a whole run: as long as a frame stays strictly
/// below the top of the call stack, nothing the machine does — subroutines
/// and their stores included — can change that frame. In particular a
/// subroutine that stores into any slot and returns leaves every one of its
/// callers' frames exactly as they were.
pub proof fn lemma_run_preserves_deep_frames(
    t: Seq<MachineState>,
    s1: MachineState,
    s2: MachineState,
    i: int,
)
    requires
        is_path(t, s1, s2),
        0 <= i,
        forall|k: int| 0 <= k < t.len() ==> i < (#[trigger] t[k]).frames.len() - 1,
    ensures
        s2.frames[i] == s1.frames[i],
    decreases t.len(),
{
    if t.len() > 1 {
        let rest = t.subrange(1, t.len() as int);
        assert(advances(t[0], t[1]));
        lemma_step_preserves_deep_frames(t[0], t[1], i);
        assert(is_path(rest, t[1], s2)) by {
            assert(rest[rest.len() - 1] == t[t.len() - 1]);
            assert forall|k: int| 0 <= k < rest.len() - 1 implies advances(
                #[trigger] rest[k],
                rest[k + 1],
            ) by {
                assert(advances(t[k + 1], t[k + 2]));
            }
        }
        assert forall|k: int| 0 <= k < rest.len() implies i < (#[trigger] rest[k]).frames.len()
            - 1 by {
            assert(rest[k] == t[k + 1]);
        }
        lemma_run_preserves_deep_frames(rest, t[1], s2, i);
    }
}

/// `checked_div` computes exactly the machine's truncating division: its
/// only `None` under a non-zero divisor is the one overflowing case, which
/// the machine wraps to `i16::MIN`.
proof fn lemma_exec_div(n2: i16, n1: i16)
    requires
        n1 != 0,
    ensures
        !(n2 == i16::MIN && n1 == -1) ==> n2.checked_div(n1) == Some(
            arith_result(Opcode::DIV, n2, n1),
        ),
        n2 == i16::MIN && n1 == -1 ==> n2.checked_div(n1) is None,
{
    let a = n2 as int;
    let b = n1 as int;
    let aa = vstd::math::abs(a) as int;
    let ab = vstd::math::abs(b) as int;
    vstd::arithmetic::div_mod::lemma_div_pos_is_pos(aa, ab);
    vstd::arithmetic::div_mod::lemma_div_is_ordered_by_denominator(aa, 1, ab);
    vstd::arithmetic::div_mod::lemma_div_basics(aa);
    if aa / ab == 0x8000 {
        assert(ab == 1) by {
            if ab >= 2 {
                vstd::arithmetic::div_mod::lemma_div_is_ordered_by_denominator(aa, 2, ab);
                assert(aa / 2 < 0x8000) by (nonlinear_arith)
                    requires
                        0 <= aa <= 0x8000,
                ;
            }
        }
    }
}

/// `checked_rem` computes exactly the machine's truncating remainder: it is
/// `None` under a non-zero divisor only in the one overflowing case, where
/// the remainder is zero.
proof fn lemma_exec_rem(n2: i16, n1: i16)
    requires
        n1 != 0,
    ensures
        !(n2 == i16::MIN && n1 == -1) ==> n2.checked_rem(n1) == Some(
            arith_result(Opcode::MOD, n2, n1),
        ),
        n2 == i16::MIN && n1 == -1 ==> n2.checked_rem(n1) is None,
{
    let a = n2 as int;
    let b = n1 as int;
    let aa = vstd::math::abs(a) as int;
    let ab = vstd::math::abs(b) as int;
    let q = aa / ab;
    vstd::arithmetic::div_mod::lemma_fundamental_div_mod(aa, ab);
    vstd::arithmetic::div_mod::lemma_mod_bound(aa, ab);
    vstd::arithmetic::div_mod::lemma_div_pos_is_pos(aa, ab);
    assert(aa % ab == aa - ab * q);
    if !(n2 == i16::MIN && n1 == -1) {
        if a >= 0 && b > 0 {
            assert(rem_trunc(a, b) == a - b * q);
        } else if a >= 0 && b < 0 {
            assert(rem_trunc(a, b) == a - b * (-q) - 0 && b * (-q) == ab * q) by (nonlinear_arith)
                requires
                    b < 0,
                    ab == -b,
                    rem_trunc(a, b) == a - b * div_trunc(a, b),
                    div_trunc(a, b) == -q,
            ;
        } else if a < 0 && b > 0 {
            assert(rem_trunc(a, b) == a + b * q && b * q == ab * q) by (nonlinear_arith)
                requires
                    b > 0,
                    ab == b,
                    rem_trunc(a, b) == a - b * div_trunc(a, b),
                    div_trunc(a, b) == -q,
            ;
            assert(rem_trunc(a, b) == -(aa - ab * q));
        } else {
            assert(a < 0 && b < 0);
            assert(rem_trunc(a, b) == a + ab * q) by (nonlinear_arith)
                requires
                    b < 0,
                    ab == -b,
                    rem_trunc(a, b) == a - b * div_trunc(a, b),
                    div_trunc(a, b) == q,
            ;
            assert(rem_trunc(a, b) == -(aa - ab * q));
        }
    }
}

} // verus!
