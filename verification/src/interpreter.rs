//! The virtual machine: opcode dispatch, exception propagation, and module
//! execution. The semantics of one dispatch-loop iteration is written out
//! as the spec function `step_of`; the executable dispatcher is proved to
//! follow it step by step, and a whole execution is an iteration of steps.

use std::io::Write;
use vstd::prelude::*;
use vstd::string::StringExecFns;
use vstd::std_specs::iter::IteratorSpec;
use crate::bytecode::{BytecodeModule, ConstantV, InstructionV, views_of_constants,
    views_of_instructions, utf8_bytes_of, string_bytes};
use crate::execution_context::{ContextV, ExceptionHandler, ExecutionContext, HandlerType,
    VMError, VMErrorV, VMResult, crop_u32, spec_find_handler, spec_store_local,
    value_of_constant};
use crate::floats;
use crate::memory::MemoryManager;
use crate::opcode::OpCode;
use crate::value::{ExceptionData, ExceptionDataV, StackFrame, StackFrameV, Value, ValueV,
    render_of, value_view, truthy_of};

verus! {

/// The immutable program a context executes.
pub ghost struct ProgV {
    pub name: Seq<char>,
    pub constants: Seq<ConstantV>,
    pub instructions: Seq<InstructionV>,
}

/// The program a module denotes.
pub open spec fn prog_of(m: BytecodeModule) -> ProgV {
    ProgV {
        name: m.name@,
        constants: views_of_constants(m.constants@),
        instructions: views_of_instructions(m.instructions@),
    }
}

/// The state a fresh execution context starts in: the first instruction,
/// an empty stack, no locals, no handlers, no pending exception.
pub open spec fn init_context_v() -> ContextV {
    ContextV {
        pc: 0,
        stack: Seq::<ValueV>::empty(),
        locals: Seq::<ValueV>::empty(),
        handlers: Seq::<crate::execution_context::ExceptionHandler>::empty(),
        exception: Option::<ValueV>::None,
    }
}

/// The model of the memory manager that the heap opcodes act on: the
/// registered heap ids, the selected heap, and the next id to issue.
pub ghost struct ManagerV {
    pub heap_ids: Seq<u32>,
    pub current: u32,
    pub next: u32,
}

/// The manager model of a memory manager value.
pub open spec fn mgr_of<T>(m: MemoryManager<T>) -> ManagerV {
    ManagerV {
        heap_ids: Seq::new(m.heaps@.len(), |i: int| m.heaps@[i].id),
        current: m.current_heap_id,
        next: m.heap_manager.next_id,
    }
}

/// Whether the manager model holds a heap with the given id.
pub open spec fn mgr_has(m: ManagerV, id: u32) -> bool {
    exists|i: int| 0 <= i < m.heap_ids.len() && m.heap_ids[i] == id
}

/// What one dispatch-loop iteration does.
pub ghost enum StepResultV {
    /// Execution goes on in the new state.
    Next(ContextV, ManagerV),
    /// Execution terminates normally with a value.
    Halted(ValueV),
    /// Execution terminates with an error.
    Failed(VMErrorV),
}

/// The first operand of an instruction, defaulting to zero.
pub open spec fn op_at(i: InstructionV, k: int) -> u32 {
    if k < i.operands.len() {
        i.operands[k]
    } else {
        0
    }
}

/// Truncated signed 64-bit division, rounding toward zero.
pub open spec fn div_trunc(a: i64, b: i64) -> i64
    recommends
        b != 0,
        !(a == i64::MIN && b == -1),
{
    let ua = if a < 0 { -(a as int) } else { a as int };
    let ub = if b < 0 { -(b as int) } else { b as int };
    let q = ua / ub;
    if (a < 0) != (b < 0) {
        (-q) as i64
    } else {
        q as i64
    }
}

/// Truncated signed 64-bit remainder, with the dividend's sign.
pub open spec fn rem_trunc(a: i64, b: i64) -> i64
    recommends
        b != 0,
        !(a == i64::MIN && b == -1),
{
    let ua = if a < 0 { -(a as int) } else { a as int };
    let ub = if b < 0 { -(b as int) } else { b as int };
    let m = ua % ub;
    if a < 0 {
        (-m) as i64
    } else {
        m as i64
    }
}

/// Lexicographic order on strings, character by character; shorter prefixes
/// order first.
pub open spec fn str_lt_of(a: Seq<char>, b: Seq<char>) -> bool
    decreases a,
{
    if b.len() == 0 {
        false
    } else if a.len() == 0 {
        true
    } else if a[0] != b[0] {
        (a[0] as u32) < (b[0] as u32)
    } else {
        str_lt_of(a.drop_first(), b.drop_first())
    }
}

/// What the addition opcode makes of its two operands: numeric addition
/// with int-to-float promotion, string concatenation, or a type error.
pub open spec fn spec_add(v1: ValueV, v2: ValueV) -> Result<ValueV, VMErrorV> {
    match (v1, v2) {
        (ValueV::Integer(i1), ValueV::Integer(i2)) => Result::Ok(ValueV::Integer(
            vstd::wrapping::i64_specs::wrapping_add(i1, i2))),
        (ValueV::Float(f1), ValueV::Float(f2)) => Result::Ok(ValueV::Float(
            floats::f64_add_of(f1, f2))),
        (ValueV::Integer(i), ValueV::Float(f)) => Result::Ok(ValueV::Float(
            floats::f64_add_of(floats::f64_of_i64(i), f))),
        (ValueV::Float(f), ValueV::Integer(i)) => Result::Ok(ValueV::Float(
            floats::f64_add_of(f, floats::f64_of_i64(i)))),
        (ValueV::String(s1), ValueV::String(s2)) => Result::Ok(ValueV::String(s1 + s2)),
        _ => Result::Err(VMErrorV::TypeError(
            "Cannot add "@ + render_of(v1) + " and "@ + render_of(v2))),
    }
}

/// What the subtraction opcode makes of its two operands.
pub open spec fn spec_sub(v1: ValueV, v2: ValueV) -> Result<ValueV, VMErrorV> {
    match (v1, v2) {
        (ValueV::Integer(i1), ValueV::Integer(i2)) => Result::Ok(ValueV::Integer(
            vstd::wrapping::i64_specs::wrapping_sub(i1, i2))),
        (ValueV::Float(f1), ValueV::Float(f2)) => Result::Ok(ValueV::Float(
            floats::f64_sub_of(f1, f2))),
        (ValueV::Integer(i), ValueV::Float(f)) => Result::Ok(ValueV::Float(
            floats::f64_sub_of(floats::f64_of_i64(i), f))),
        (ValueV::Float(f), ValueV::Integer(i)) => Result::Ok(ValueV::Float(
            floats::f64_sub_of(f, floats::f64_of_i64(i)))),
        _ => Result::Err(VMErrorV::TypeError(
            "Cannot subtract "@ + render_of(v2) + " from "@ + render_of(v1))),
    }
}

/// What the multiplication opcode makes of its two operands.
pub open spec fn spec_mul(v1: ValueV, v2: ValueV) -> Result<ValueV, VMErrorV> {
    match (v1, v2) {
        (ValueV::Integer(i1), ValueV::Integer(i2)) => Result::Ok(ValueV::Integer(
            vstd::wrapping::i64_specs::wrapping_mul(i1, i2))),
        (ValueV::Float(f1), ValueV::Float(f2)) => Result::Ok(ValueV::Float(
            floats::f64_mul_of(f1, f2))),
        (ValueV::Integer(i), ValueV::Float(f)) => Result::Ok(ValueV::Float(
            floats::f64_mul_of(floats::f64_of_i64(i), f))),
        (ValueV::Float(f), ValueV::Integer(i)) => Result::Ok(ValueV::Float(
            floats::f64_mul_of(f, floats::f64_of_i64(i)))),
        _ => Result::Err(VMErrorV::TypeError(
            "Cannot multiply "@ + render_of(v1) + " and "@ + render_of(v2))),
    }
}

/// What the division opcode makes of its two operands: the remainder and
/// the quotient, quotient on top, with division by zero fatal.
pub open spec fn spec_div(v1: ValueV, v2: ValueV) -> Result<(ValueV, ValueV), VMErrorV> {
    match (v1, v2) {
        (ValueV::Integer(i1), ValueV::Integer(i2)) => if i2 == 0 {
            Result::Err(VMErrorV::DivisionByZero)
        } else if i1 == i64::MIN && i2 == -1 {
            Result::Err(VMErrorV::ArithmeticError("integer overflow in division"@))
        } else {
            Result::Ok((ValueV::Integer(rem_trunc(i1, i2)), ValueV::Integer(div_trunc(i1, i2))))
        },
        (ValueV::Float(f1), ValueV::Float(f2)) => if floats::f64_is_zero(f2) {
            Result::Err(VMErrorV::DivisionByZero)
        } else {
            Result::Ok((ValueV::Float(floats::f64_fmod_of(f1, f2)),
                ValueV::Float(floats::f64_div_of(f1, f2))))
        },
        (ValueV::Integer(i), ValueV::Float(f)) => if floats::f64_is_zero(f) {
            Result::Err(VMErrorV::DivisionByZero)
        } else {
            Result::Ok((ValueV::Float(floats::f64_fmod_of(floats::f64_of_i64(i), f)),
                ValueV::Float(floats::f64_div_of(floats::f64_of_i64(i), f))))
        },
        (ValueV::Float(f), ValueV::Integer(i)) => if i == 0 {
            Result::Err(VMErrorV::DivisionByZero)
        } else {
            Result::Ok((ValueV::Float(floats::f64_fmod_of(f, floats::f64_of_i64(i))),
                ValueV::Float(floats::f64_div_of(f, floats::f64_of_i64(i)))))
        },
        _ => Result::Err(VMErrorV::TypeError(
            "Cannot divide "@ + render_of(v1) + " by "@ + render_of(v2))),
    }
}

/// Whether two values compare equal: matching types compare by value, null
/// equals null, and mixed types compare not equal.
pub open spec fn spec_values_equal(v1: ValueV, v2: ValueV) -> bool {
    match (v1, v2) {
        (ValueV::Integer(i1), ValueV::Integer(i2)) => i1 == i2,
        (ValueV::Float(f1), ValueV::Float(f2)) => floats::f64_eq(f1, f2),
        (ValueV::Boolean(b1), ValueV::Boolean(b2)) => b1 == b2,
        (ValueV::String(s1), ValueV::String(s2)) => s1 == s2,
        (ValueV::Null, ValueV::Null) => true,
        _ => false,
    }
}

/// What an ordered comparison makes of two values: numeric order with
/// promotion, lexicographic order on strings, or a type error naming the
/// operator.
pub open spec fn spec_ordered(v1: ValueV, v2: ValueV, op_name: Seq<char>) -> Result<(bool, bool), VMErrorV> {
    match (v1, v2) {
        (ValueV::Integer(i1), ValueV::Integer(i2)) => Result::Ok((i1 < i2, i1 == i2)),
        (ValueV::Float(f1), ValueV::Float(f2)) => Result::Ok((floats::f64_lt(f1, f2),
            floats::f64_eq(f1, f2))),
        (ValueV::Integer(i), ValueV::Float(f)) => Result::Ok((
            floats::f64_lt(floats::f64_of_i64(i), f),
            floats::f64_eq(floats::f64_of_i64(i), f))),
        (ValueV::Float(f), ValueV::Integer(i)) => Result::Ok((
            floats::f64_lt(f, floats::f64_of_i64(i)),
            floats::f64_eq(f, floats::f64_of_i64(i)))),
        (ValueV::String(s1), ValueV::String(s2)) => Result::Ok((str_lt_of(s1, s2), s1 == s2)),
        _ => Result::Err(VMErrorV::TypeError("Cannot compare "@ + render_of(v1) + " and "@
            + render_of(v2) + " with "@ + op_name)),
    }
}

/// The exception a thrown value converts to: a string is an error message,
/// an array of two or more is a type name and a message, anything else
/// renders as the message.
pub open spec fn spec_exception_of(v: ValueV, pc: int, module: Seq<char>) -> ValueV {
    let (ty, msg): (Seq<char>, Seq<char>) = match v {
        ValueV::String(s) => ("Error"@, s),
        ValueV::Array(elems) => if elems.len() >= 2 {
            (match elems[0] {
                ValueV::String(s) => s,
                _ => "Error"@,
            }, match elems[1] {
                ValueV::String(s) => s,
                m => render_of(m),
            })
        } else {
            ("Error"@, render_of(v))
        },
        _ => ("Error"@, render_of(v)),
    };
    ValueV::Exception(ExceptionDataV {
        exception_type: ty,
        message: msg,
        stack_trace: seq![StackFrameV { pc, module: Option::Some(module) }],
    })
}

/// An exception with one more stack frame recorded.
pub open spec fn spec_with_frame(v: ValueV, pc: int, module: Seq<char>) -> ValueV {
    match v {
        ValueV::Exception(e) => ValueV::Exception(ExceptionDataV {
            stack_trace: e.stack_trace.push(StackFrameV { pc, module: Option::Some(module) }),
            ..e
        }),
        _ => v,
    }
}

/// One iteration of the dispatch loop, for a program counter that points at
/// an instruction: exception propagation when an exception is pending,
/// otherwise the current instruction's effect.
pub open spec fn step_of(prog: ProgV, c: ContextV, m: ManagerV) -> StepResultV
    recommends
        0 <= c.pc < prog.instructions.len(),
{
    if c.exception is Some {
        let exc = c.exception->0;
        match spec_find_handler(c.handlers, c.pc) {
            Option::Some(h) => {
                let kept = if c.stack.len() > h.stack_depth {
                    c.stack.take(h.stack_depth as int)
                } else {
                    c.stack
                };
                if h.handler_type == HandlerType::Catch {
                    StepResultV::Next(ContextV {
                        pc: h.handler_pc as int,
                        stack: kept.push(exc),
                        exception: Option::None,
                        ..c
                    }, m)
                } else {
                    StepResultV::Next(ContextV { pc: h.handler_pc as int, stack: kept, ..c }, m)
                }
            },
            Option::None => StepResultV::Failed(VMErrorV::RuntimeError(
                "Unhandled exception: "@ + render_of(exc))),
        }
    } else {
        let instr = prog.instructions[c.pc];
        let advanced = ContextV { pc: c.pc + 1, ..c };
        match instr.opcode {
            OpCode::Nop => StepResultV::Next(advanced, m),
            OpCode::Halt => StepResultV::Halted(
                if c.stack.len() > 0 { c.stack.last() } else { ValueV::Null }),
            OpCode::Print => if c.stack.len() == 0 {
                StepResultV::Failed(VMErrorV::StackUnderflow)
            } else {
                StepResultV::Next(ContextV { stack: c.stack.drop_last(), ..advanced }, m)
            },
            OpCode::Push => {
                let idx = op_at(instr, 0);
                if idx >= prog.constants.len() {
                    StepResultV::Failed(VMErrorV::InvalidConstantIndex(idx))
                } else {
                    StepResultV::Next(ContextV {
                        stack: c.stack.push(value_of_constant(prog.constants[idx as int])),
                        ..advanced
                    }, m)
                }
            },
            OpCode::Pop => if c.stack.len() == 0 {
                StepResultV::Failed(VMErrorV::StackUnderflow)
            } else {
                StepResultV::Next(ContextV { stack: c.stack.drop_last(), ..advanced }, m)
            },
            OpCode::Dup => if c.stack.len() == 0 {
                StepResultV::Failed(VMErrorV::StackUnderflow)
            } else {
                StepResultV::Next(ContextV { stack: c.stack.push(c.stack.last()), ..advanced }, m)
            },
            OpCode::Swap => if c.stack.len() < 2 {
                StepResultV::Failed(VMErrorV::StackUnderflow)
            } else {
                let v1 = c.stack.last();
                let v2 = c.stack.drop_last().last();
                StepResultV::Next(ContextV {
                    stack: c.stack.drop_last().drop_last().push(v1).push(v2),
                    ..advanced
                }, m)
            },
            OpCode::Add => if c.stack.len() < 2 {
                StepResultV::Failed(VMErrorV::StackUnderflow)
            } else {
                match spec_add(c.stack.drop_last().last(), c.stack.last()) {
                    Result::Ok(v) => StepResultV::Next(ContextV {
                        stack: c.stack.drop_last().drop_last().push(v), ..advanced }, m),
                    Result::Err(e) => StepResultV::Failed(e),
                }
            },
            OpCode::Sub => if c.stack.len() < 2 {
                StepResultV::Failed(VMErrorV::StackUnderflow)
            } else {
                match spec_sub(c.stack.drop_last().last(), c.stack.last()) {
                    Result::Ok(v) => StepResultV::Next(ContextV {
                        stack: c.stack.drop_last().drop_last().push(v), ..advanced }, m),
                    Result::Err(e) => StepResultV::Failed(e),
                }
            },
            OpCode::Mul => if c.stack.len() < 2 {
                StepResultV::Failed(VMErrorV::StackUnderflow)
            } else {
                match spec_mul(c.stack.drop_last().last(), c.stack.last()) {
                    Result::Ok(v) => StepResultV::Next(ContextV {
                        stack: c.stack.drop_last().drop_last().push(v), ..advanced }, m),
                    Result::Err(e) => StepResultV::Failed(e),
                }
            },
            OpCode::Div => if c.stack.len() < 2 {
                StepResultV::Failed(VMErrorV::StackUnderflow)
            } else {
                match spec_div(c.stack.drop_last().last(), c.stack.last()) {
                    Result::Ok((rem, quot)) => StepResultV::Next(ContextV {
                        stack: c.stack.drop_last().drop_last().push(rem).push(quot),
                        ..advanced
                    }, m),
                    Result::Err(e) => StepResultV::Failed(e),
                }
            },
            OpCode::Neg => if c.stack.len() == 0 {
                StepResultV::Failed(VMErrorV::StackUnderflow)
            } else {
                match c.stack.last() {
                    ValueV::Integer(i) => StepResultV::Next(ContextV {
                        stack: c.stack.drop_last().push(ValueV::Integer(
                            vstd::wrapping::i64_specs::wrapping_sub(0, i))),
                        ..advanced
                    }, m),
                    ValueV::Float(f) => StepResultV::Next(ContextV {
                        stack: c.stack.drop_last().push(ValueV::Float(floats::f64_neg_bits(f))),
                        ..advanced
                    }, m),
                    v => StepResultV::Failed(VMErrorV::TypeError(
                        "Cannot negate "@ + render_of(v))),
                }
            },
            OpCode::BitAnd => spec_bitwise(c, m, advanced, BitOpV::And),
            OpCode::BitOr => spec_bitwise(c, m, advanced, BitOpV::Or),
            OpCode::BitXor => spec_bitwise(c, m, advanced, BitOpV::Xor),
            OpCode::BitNot => if c.stack.len() == 0 {
                StepResultV::Failed(VMErrorV::StackUnderflow)
            } else {
                match c.stack.last() {
                    ValueV::Integer(i) => StepResultV::Next(ContextV {
                        stack: c.stack.drop_last().push(ValueV::Integer((-1 - i) as i64)),
                        ..advanced
                    }, m),
                    _ => StepResultV::Failed(VMErrorV::TypeError(
                        "Cannot perform bitwise NOT on non-integer value"@)),
                }
            },
            OpCode::ShiftLeft => spec_shift(c, m, advanced, ShiftOpV::Left),
            OpCode::ShiftRight => spec_shift(c, m, advanced, ShiftOpV::Right),
            OpCode::RotateLeft => spec_rotate(c, m, advanced, true),
            OpCode::RotateRight => spec_rotate(c, m, advanced, false),
            OpCode::And => if c.stack.len() < 2 {
                StepResultV::Failed(VMErrorV::StackUnderflow)
            } else {
                StepResultV::Next(ContextV {
                    stack: c.stack.drop_last().drop_last().push(ValueV::Boolean(
                        truthy_of(c.stack.drop_last().last()) && truthy_of(c.stack.last()))),
                    ..advanced
                }, m)
            },
            OpCode::Or => if c.stack.len() < 2 {
                StepResultV::Failed(VMErrorV::StackUnderflow)
            } else {
                StepResultV::Next(ContextV {
                    stack: c.stack.drop_last().drop_last().push(ValueV::Boolean(
                        truthy_of(c.stack.drop_last().last()) || truthy_of(c.stack.last()))),
                    ..advanced
                }, m)
            },
            OpCode::Not => if c.stack.len() == 0 {
                StepResultV::Failed(VMErrorV::StackUnderflow)
            } else {
                StepResultV::Next(ContextV {
                    stack: c.stack.drop_last().push(ValueV::Boolean(!truthy_of(c.stack.last()))),
                    ..advanced
                }, m)
            },
            OpCode::Eq => if c.stack.len() < 2 {
                StepResultV::Failed(VMErrorV::StackUnderflow)
            } else {
                StepResultV::Next(ContextV {
                    stack: c.stack.drop_last().drop_last().push(ValueV::Boolean(
                        spec_values_equal(c.stack.drop_last().last(), c.stack.last()))),
                    ..advanced
                }, m)
            },
            OpCode::Neq => if c.stack.len() < 2 {
                StepResultV::Failed(VMErrorV::StackUnderflow)
            } else {
                StepResultV::Next(ContextV {
                    stack: c.stack.drop_last().drop_last().push(ValueV::Boolean(
                        !spec_values_equal(c.stack.drop_last().last(), c.stack.last()))),
                    ..advanced
                }, m)
            },
            OpCode::Lt => spec_compare(c, m, advanced, CompareOpV::Lt),
            OpCode::Lte => spec_compare(c, m, advanced, CompareOpV::Lte),
            OpCode::Gt => spec_compare(c, m, advanced, CompareOpV::Gt),
            OpCode::Gte => spec_compare(c, m, advanced, CompareOpV::Gte),
            OpCode::Jump => {
                let target = op_at(instr, 0) as int;
                if target >= prog.instructions.len() {
                    StepResultV::Failed(VMErrorV::InvalidProgramCounter(target))
                } else {
                    StepResultV::Next(ContextV { pc: target, ..c }, m)
                }
            },
            OpCode::JumpIf => if c.stack.len() == 0 {
                StepResultV::Failed(VMErrorV::StackUnderflow)
            } else {
                let target = op_at(instr, 0) as int;
                let popped = ContextV { stack: c.stack.drop_last(), ..c };
                if truthy_of(c.stack.last()) {
                    if target >= prog.instructions.len() {
                        StepResultV::Failed(VMErrorV::InvalidProgramCounter(target))
                    } else {
                        StepResultV::Next(ContextV { pc: target, ..popped }, m)
                    }
                } else {
                    StepResultV::Next(ContextV { pc: c.pc + 1, ..popped }, m)
                }
            },
            OpCode::JumpIfNot => if c.stack.len() == 0 {
                StepResultV::Failed(VMErrorV::StackUnderflow)
            } else {
                let target = op_at(instr, 0) as int;
                let popped = ContextV { stack: c.stack.drop_last(), ..c };
                if !truthy_of(c.stack.last()) {
                    if target >= prog.instructions.len() {
                        StepResultV::Failed(VMErrorV::InvalidProgramCounter(target))
                    } else {
                        StepResultV::Next(ContextV { pc: target, ..popped }, m)
                    }
                } else {
                    StepResultV::Next(ContextV { pc: c.pc + 1, ..popped }, m)
                }
            },
            OpCode::Call => {
                let target = op_at(instr, 0) as int;
                if target >= prog.instructions.len() {
                    StepResultV::Failed(VMErrorV::InvalidProgramCounter(target))
                } else {
                    StepResultV::Next(ContextV {
                        pc: target,
                        stack: c.stack.push(ValueV::ProgramCounter(c.pc + 1)),
                        ..c
                    }, m)
                }
            },
            OpCode::Return => if c.stack.len() == 0 {
                StepResultV::Failed(VMErrorV::StackUnderflow)
            } else {
                match c.stack.last() {
                    ValueV::ProgramCounter(ra) => if ra >= prog.instructions.len() {
                        StepResultV::Failed(VMErrorV::InvalidProgramCounter(ra))
                    } else {
                        StepResultV::Next(ContextV {
                            pc: ra, stack: c.stack.drop_last(), ..c }, m)
                    },
                    v => StepResultV::Failed(VMErrorV::TypeError(
                        "Expected program counter, found "@ + render_of(v))),
                }
            },
            OpCode::TryBlock => {
                let end_pc = op_at(instr, 2) as usize;
                let with_finally = if instr.operands.len() > 1 {
                    c.handlers.push(ExceptionHandler {
                        handler_type: HandlerType::Finally,
                        handler_pc: op_at(instr, 1) as usize,
                        end_pc,
                        stack_depth: c.stack.len() as usize,
                    })
                } else {
                    c.handlers
                };
                let with_catch = if instr.operands.len() > 0 {
                    with_finally.push(ExceptionHandler {
                        handler_type: HandlerType::Catch,
                        handler_pc: op_at(instr, 0) as usize,
                        end_pc: if instr.operands.len() > 1 {
                            op_at(instr, 1) as usize
                        } else {
                            end_pc
                        },
                        stack_depth: c.stack.len() as usize,
                    })
                } else {
                    with_finally
                };
                StepResultV::Next(ContextV { handlers: with_catch, ..advanced }, m)
            },
            OpCode::CatchBlock => StepResultV::Next(advanced, m),
            OpCode::FinallyBlock => StepResultV::Next(advanced, m),
            OpCode::EndTry => StepResultV::Next(ContextV {
                handlers: if c.handlers.len() > 0 { c.handlers.drop_last() } else { c.handlers },
                ..advanced
            }, m),
            OpCode::Throw => if c.stack.len() == 0 {
                StepResultV::Failed(VMErrorV::StackUnderflow)
            } else {
                StepResultV::Next(ContextV {
                    stack: c.stack.drop_last(),
                    exception: Option::Some(spec_exception_of(c.stack.last(), c.pc, prog.name)),
                    ..advanced
                }, m)
            },
            OpCode::Rethrow => StepResultV::Failed(VMErrorV::RuntimeError(
                "Cannot rethrow without an active exception"@)),
            OpCode::StoreLocal => if c.stack.len() == 0 {
                StepResultV::Failed(VMErrorV::StackUnderflow)
            } else if op_at(instr, 0) as int >= usize::MAX as int {
                StepResultV::Failed(VMErrorV::InvalidOperation("local index out of range"@))
            } else {
                StepResultV::Next(ContextV {
                    stack: c.stack.drop_last(),
                    locals: spec_store_local(c.locals, op_at(instr, 0) as int, c.stack.last()),
                    ..advanced
                }, m)
            },
            OpCode::LoadLocal => {
                let idx = op_at(instr, 0) as int;
                if idx >= c.locals.len() {
                    StepResultV::Failed(VMErrorV::InvalidLocalIndex(crop_u32(idx)))
                } else {
                    StepResultV::Next(ContextV {
                        stack: c.stack.push(c.locals[idx]),
                        ..advanced
                    }, m)
                }
            },
            OpCode::CreateHeap => if mgr_has(m, m.next) {
                StepResultV::Failed(VMErrorV::MemoryError(
                    "Operation on current heap failed: heap ids exhausted"@))
            } else {
                StepResultV::Next(ContextV {
                    stack: c.stack.push(ValueV::HeapId(m.next)),
                    ..advanced
                }, ManagerV {
                    heap_ids: m.heap_ids.push(m.next),
                    next: vstd::wrapping::u32_specs::wrapping_add(m.next, 1),
                    ..m
                })
            },
            OpCode::SwitchHeap => if c.stack.len() == 0 {
                StepResultV::Failed(VMErrorV::StackUnderflow)
            } else {
                match spec_heap_id_of(c.stack.last()) {
                    Result::Ok(id) => if mgr_has(m, id) {
                        StepResultV::Next(ContextV { stack: c.stack.drop_last(), ..advanced },
                            ManagerV { current: id, ..m })
                    } else {
                        StepResultV::Failed(VMErrorV::MemoryError(
                            "Operation on current heap failed: Heap "@
                                + crate::decimal::u64_digits_of(id as u64) + " does not exist"@))
                    },
                    Result::Err(e) => StepResultV::Failed(e),
                }
            },
            OpCode::CollectHeap => if c.stack.len() == 0 {
                StepResultV::Failed(VMErrorV::StackUnderflow)
            } else {
                match spec_heap_id_of(c.stack.last()) {
                    Result::Ok(id) => if mgr_has(m, id) {
                        StepResultV::Next(ContextV { stack: c.stack.drop_last(), ..advanced }, m)
                    } else {
                        StepResultV::Failed(VMErrorV::MemoryError(
                            "Operation on current heap failed: Heap "@
                                + crate::decimal::u64_digits_of(id as u64) + " does not exist"@))
                    },
                    Result::Err(e) => StepResultV::Failed(e),
                }
            },
            OpCode::NewArray => {
                let n = op_at(instr, 0) as int;
                if c.stack.len() < n {
                    StepResultV::Failed(VMErrorV::StackUnderflow)
                } else {
                    StepResultV::Next(ContextV {
                        stack: c.stack.take(c.stack.len() - n).push(ValueV::Array(
                            c.stack.skip(c.stack.len() - n))),
                        ..advanced
                    }, m)
                }
            },
            OpCode::GetElement => if c.stack.len() < 2 {
                StepResultV::Failed(VMErrorV::StackUnderflow)
            } else {
                let index_value = c.stack.last();
                let target = c.stack.drop_last().last();
                let rest = c.stack.drop_last().drop_last();
                match index_value {
                    ValueV::Integer(i) => if i < 0 {
                        StepResultV::Failed(VMErrorV::IndexOutOfBounds(wrap_usize(i)))
                    } else {
                        let idx = wrap_usize(i);
                        match target {
                            ValueV::Array(elems) => if idx >= elems.len() {
                                StepResultV::Failed(VMErrorV::IndexOutOfBounds(idx))
                            } else {
                                StepResultV::Next(ContextV {
                                    stack: rest.push(elems[idx]), ..advanced }, m)
                            },
                            ValueV::String(s) => if idx >= s.len() {
                                StepResultV::Failed(VMErrorV::IndexOutOfBounds(idx))
                            } else {
                                StepResultV::Next(ContextV {
                                    stack: rest.push(ValueV::String(seq![s[idx]])),
                                    ..advanced
                                }, m)
                            },
                            _ => StepResultV::Failed(VMErrorV::TypeError(
                                "Cannot index into non-array value"@)),
                        }
                    },
                    _ => StepResultV::Failed(VMErrorV::TypeError(
                        "Array index must be an integer"@)),
                }
            },
            OpCode::SetElement => if c.stack.len() < 3 {
                StepResultV::Failed(VMErrorV::StackUnderflow)
            } else {
                let value = c.stack.last();
                let index_value = c.stack.drop_last().last();
                let target = c.stack.drop_last().drop_last().last();
                let rest = c.stack.drop_last().drop_last().drop_last();
                match index_value {
                    ValueV::Integer(i) => if i < 0 {
                        StepResultV::Failed(VMErrorV::IndexOutOfBounds(wrap_usize(i)))
                    } else {
                        let idx = wrap_usize(i);
                        match target {
                            ValueV::Array(elems) => if idx >= elems.len() {
                                StepResultV::Failed(VMErrorV::IndexOutOfBounds(idx))
                            } else {
                                StepResultV::Next(ContextV {
                                    stack: rest.push(ValueV::Array(elems.update(idx, value))),
                                    ..advanced
                                }, m)
                            },
                            _ => StepResultV::Failed(VMErrorV::TypeError(
                                "Cannot set element of non-array value"@)),
                        }
                    },
                    _ => StepResultV::Failed(VMErrorV::TypeError(
                        "Array index must be an integer"@)),
                }
            },
            OpCode::ArrayLength => if c.stack.len() == 0 {
                StepResultV::Failed(VMErrorV::StackUnderflow)
            } else {
                match c.stack.last() {
                    ValueV::Array(elems) => StepResultV::Next(ContextV {
                        stack: c.stack.drop_last().push(ValueV::Integer(elems.len() as i64)),
                        ..advanced
                    }, m),
                    ValueV::String(s) => StepResultV::Next(ContextV {
                        stack: c.stack.drop_last().push(ValueV::Integer(
                            utf8_bytes_of(s).len() as i64)),
                        ..advanced
                    }, m),
                    _ => StepResultV::Failed(VMErrorV::TypeError(
                        "Cannot get length of non-array/string value"@)),
                }
            },
        }
    }
}

/// A two-operand bitwise opcode.
pub ghost enum BitOpV {
    And,
    Or,
    Xor,
}

/// The effect of a two-operand bitwise opcode.
pub open spec fn spec_bitwise(c: ContextV, m: ManagerV, advanced: ContextV, op: BitOpV) -> StepResultV {
    if c.stack.len() < 2 {
        StepResultV::Failed(VMErrorV::StackUnderflow)
    } else {
        match (c.stack.drop_last().last(), c.stack.last()) {
            (ValueV::Integer(i1), ValueV::Integer(i2)) => StepResultV::Next(ContextV {
                stack: c.stack.drop_last().drop_last().push(ValueV::Integer(match op {
                    BitOpV::And => i1 & i2,
                    BitOpV::Or => i1 | i2,
                    BitOpV::Xor => i1 ^ i2,
                })),
                ..advanced
            }, m),
            _ => StepResultV::Failed(VMErrorV::TypeError(match op {
                BitOpV::And => "Cannot perform bitwise AND on non-integer values"@,
                BitOpV::Or => "Cannot perform bitwise OR on non-integer values"@,
                BitOpV::Xor => "Cannot perform bitwise XOR on non-integer values"@,
            })),
        }
    }
}

pub ghost enum ShiftOpV {
    Left,
    Right,
}

/// The effect of a shift opcode: negative amounts are invalid operations,
/// amounts past the word size are out of range.
pub open spec fn spec_shift(c: ContextV, m: ManagerV, advanced: ContextV, op: ShiftOpV) -> StepResultV {
    if c.stack.len() < 2 {
        StepResultV::Failed(VMErrorV::StackUnderflow)
    } else {
        match (c.stack.drop_last().last(), c.stack.last()) {
            (ValueV::Integer(i1), ValueV::Integer(i2)) => if i2 < 0 {
                StepResultV::Failed(VMErrorV::InvalidOperation(match op {
                    ShiftOpV::Left => "Cannot shift left by negative amount"@,
                    ShiftOpV::Right => "Cannot shift right by negative amount"@,
                }))
            } else if i2 >= 64 {
                StepResultV::Failed(VMErrorV::InvalidOperation("shift amount out of range"@))
            } else {
                StepResultV::Next(ContextV {
                    stack: c.stack.drop_last().drop_last().push(ValueV::Integer(match op {
                        ShiftOpV::Left => i1 << i2,
                        ShiftOpV::Right => i1 >> i2,
                    })),
                    ..advanced
                }, m)
            },
            _ => StepResultV::Failed(VMErrorV::TypeError(match op {
                ShiftOpV::Left => "Cannot perform shift left on non-integer values"@,
                ShiftOpV::Right => "Cannot perform shift right on non-integer values"@,
            })),
        }
    }
}

/// The effect of a rotate opcode: a rotation of the low 32-bit
/// half-rotations; negative amounts are invalid, and amounts past the
/// half-word size would not compute.
pub open spec fn spec_rotate(c: ContextV, m: ManagerV, advanced: ContextV, left: bool) -> StepResultV {
    if c.stack.len() < 2 {
        StepResultV::Failed(VMErrorV::StackUnderflow)
    } else {
        match (c.stack.drop_last().last(), c.stack.last()) {
            (ValueV::Integer(i1), ValueV::Integer(i2)) => if i2 < 0 {
                StepResultV::Failed(VMErrorV::InvalidOperation(if left {
                    "Cannot rotate left by negative amount"@
                } else {
                    "Cannot rotate right by negative amount"@
                }))
            } else if i2 > 32 {
                StepResultV::Failed(VMErrorV::InvalidOperation("rotate amount out of range"@))
            } else {
                StepResultV::Next(ContextV {
                    stack: c.stack.drop_last().drop_last().push(ValueV::Integer(if left {
                        (i1 << i2) | (i1 >> ((32 - i2) as i64))
                    } else {
                        (i1 >> i2) | (i1 << ((32 - i2) as i64))
                    })),
                    ..advanced
                }, m)
            },
            _ => StepResultV::Failed(VMErrorV::TypeError(if left {
                "Cannot perform rotate left on non-integer values"@
            } else {
                "Cannot perform rotate right on non-integer values"@
            })),
        }
    }
}

pub ghost enum CompareOpV {
    Lt,
    Lte,
    Gt,
    Gte,
}

/// The name an ordered-comparison type error prints.
pub open spec fn compare_op_name(op: CompareOpV) -> Seq<char> {
    match op {
        CompareOpV::Lt => "<"@,
        CompareOpV::Lte => "<="@,
        CompareOpV::Gt => ">"@,
        CompareOpV::Gte => ">="@,
    }
}

/// The effect of an ordered-comparison opcode.
pub open spec fn spec_compare(c: ContextV, m: ManagerV, advanced: ContextV, op: CompareOpV) -> StepResultV {
    if c.stack.len() < 2 {
        StepResultV::Failed(VMErrorV::StackUnderflow)
    } else {
        let v1 = c.stack.drop_last().last();
        let v2 = c.stack.last();
        match spec_ordered(v1, v2, compare_op_name(op)) {
            Result::Ok((lt, eq)) => StepResultV::Next(ContextV {
                stack: c.stack.drop_last().drop_last().push(ValueV::Boolean(match op {
                    CompareOpV::Lt => lt,
                    CompareOpV::Lte => lt || eq,
                    CompareOpV::Gt => !lt && !eq,
                    CompareOpV::Gte => !lt,
                })),
                ..advanced
            }, m),
            Result::Err(e) => StepResultV::Failed(e),
        }
    }
}

/// The low 32 bits of a signed number, as a narrowing cast
/// kept them.
pub open spec fn low_u32(i: i64) -> u32 {
    (i & 0xFFFF_FFFF) as u32
}

/// A signed number reinterpreted the way a narrowing cast to a
/// machine word reinterpreted it.
pub open spec fn wrap_usize(i: i64) -> int {
    (i as usize) as int
}

/// The heap id a value denotes for the heap opcodes: a heap id itself, or
/// an integer truncated to 32 bits.
pub open spec fn spec_heap_id_of(v: ValueV) -> Result<u32, VMErrorV> {
    match v {
        ValueV::HeapId(id) => Result::Ok(id),
        ValueV::Integer(i) => Result::Ok(low_u32(i)),
        _ => Result::Err(VMErrorV::TypeError("Expected heap ID, found "@ + render_of(v))),
    }
}


/// What one executed step reported.
pub enum StepOutcome {
    /// Execution continues with the context updated.
    Continue,
    /// Execution terminated normally with this value.
    Halted(Value),
    /// Execution terminated with this error.
    Failed(VMError),
}

/// Relies on std::io::Stdout and the writeln macro to print one line; the
/// execution state does not depend on what printing does.
#[verifier::external_body]
pub(crate) fn print_line(s: &str) {
    let mut out = std::io::stdout();
    let _ = writeln!(out, "{}", s);
}

/// Truncated signed division, as the machine division operator computes
/// it, written over unsigned magnitudes so that no input can fault.
fn div_trunc_exec(a: i64, b: i64) -> (r: i64)
    requires
        b != 0,
        !(a == i64::MIN && b == -1),
    ensures
        r == div_trunc(a, b),
{
    let ua: u64 = magnitude(a);
    let ub: u64 = magnitude(b);
    proof {
        assert(ua / ub <= ua) by (nonlinear_arith) requires ub >= 1, ua >= 0;
    }
    let uq: u64 = ua / ub;
    if (a < 0) != (b < 0) {
        if uq == 0x8000_0000_0000_0000 {
            i64::MIN
        } else {
            -(uq as i64)
        }
    } else {
        proof {
            if a < 0 {
                if ub == 1 {
                    assert(b == -1);
                    assert(a != i64::MIN);
                } else {
                    assert(ua / ub <= ua / 2) by (nonlinear_arith) requires ub >= 2, ua >= 0;
                }
            }
            assert(uq <= i64::MAX as u64);
        }
        uq as i64
    }
}

/// Truncated signed remainder, as the machine remainder operator
/// computed it.
fn rem_trunc_exec(a: i64, b: i64) -> (r: i64)
    requires
        b != 0,
        !(a == i64::MIN && b == -1),
    ensures
        r == rem_trunc(a, b),
{
    let ua: u64 = magnitude(a);
    let ub: u64 = magnitude(b);
    let um: u64 = ua % ub;
    proof {
        assert(um < ub);
        assert(um <= ua) by (nonlinear_arith) requires ub >= 1, ua >= 0, um == ua % ub;
    }
    if a < 0 {
        -(um as i64)
    } else {
        um as i64
    }
}

/// The absolute value of a signed 64-bit number, as an unsigned number.
fn magnitude(x: i64) -> (r: u64)
    ensures
        r == if x < 0 { -(x as int) } else { x as int },
{
    if x == i64::MIN {
        0x8000_0000_0000_0000
    } else if x < 0 {
        (-x) as u64
    } else {
        x as u64
    }
}

/// The characters of a string, in order.
pub fn string_chars(s: &str) -> (r: Vec<char>)
    ensures
        r@ == s@,
{
    broadcast use vstd::string::axiom_spec_iter;
    broadcast use vstd::string::next_postcondition;

    let mut it = s.chars();
    let mut out: Vec<char> = Vec::new();
    loop
        invariant
            it.obeys_prophetic_iter_laws(),
            out@ + it.remaining() == s@,
        decreases s@.len() - out@.len(),
    {
        match it.next() {
            Some(c) => {
                out.push(c);
                proof {
                    assert(out@ + it.remaining() =~= s@);
                }
            },
            None => {
                proof {
                    assert(out@ =~= s@);
                }
                return out;
            },
        }
    }
}


/// Whether two strings hold the same characters.
pub fn str_eq(x: &str, y: &str) -> (r: bool)
    ensures
        r == (x@ == y@),
{
    let a = string_chars(x);
    let b = string_chars(y);
    if a.len() != b.len() {
        proof {
            assert(x@.len() != y@.len());
        }
        return false;
    }
    let mut i: usize = 0;
    while i < a.len()
        invariant
            a@ == x@,
            b@ == y@,
            a@.len() == b@.len(),
            i <= a@.len(),
            forall|q: int| 0 <= q < i ==> a@[q] == b@[q],
        decreases a@.len() - i,
    {
        if a[i] != b[i] {
            return false;
        }
        i = i + 1;
    }
    proof {
        assert(x@ =~= y@);
    }
    true
}

/// Lexicographic comparison of two strings, character by character.
pub fn str_lt_exec(x: &str, y: &str) -> (r: bool)
    ensures
        r == str_lt_of(x@, y@),
{
    let a = string_chars(x);
    let b = string_chars(y);
    let mut i: usize = 0;
    proof {
        assert(a@.skip(0) =~= a@);
        assert(b@.skip(0) =~= b@);
    }
    loop
        invariant
            a@ == x@,
            b@ == y@,
            i <= a@.len(),
            i <= b@.len(),
            str_lt_of(x@, y@) == str_lt_of(a@.skip(i as int), b@.skip(i as int)),
        decreases a@.len() - i,
    {
        if i >= b.len() {
            proof { assert(b@.skip(i as int).len() == 0); }
            return false;
        }
        if i >= a.len() {
            proof { assert(a@.skip(i as int).len() == 0 && b@.skip(i as int).len() > 0); }
            return true;
        }
        let ca = a[i];
        let cb = b[i];
        proof {
            assert(a@.skip(i as int)[0] == a@[i as int]);
            assert(b@.skip(i as int)[0] == b@[i as int]);
            assert(a@.skip(i as int).drop_first() =~= a@.skip(i as int + 1));
            assert(b@.skip(i as int).drop_first() =~= b@.skip(i as int + 1));
        }
        if ca != cb {
            return (ca as u32) < (cb as u32);
        }
        i = i + 1;
    }
}


/// Relies on char's ToString: the one-character string of a character.
#[verifier::external_body]
pub(crate) fn char_string(c: char) -> (r: String)
    ensures
        r@ == seq![c],
{
    c.to_string()
}

/// The operand at a position, defaulting to zero as the dispatch's
/// `get(..).copied().unwrap_or(0)` did.
fn op(instr: &crate::bytecode::Instruction, k: usize) -> (r: u32)
    ensures
        r == op_at(instr@, k as int),
{
    if k < instr.operands.len() {
        instr.operands[k]
    } else {
        0
    }
}

/// Whether two values compare equal under the equality opcodes.
fn values_equal_exec(v1: &Value, v2: &Value) -> (r: bool)
    ensures
        r == spec_values_equal(value_view(*v1), value_view(*v2)),
{
    match v1 {
        Value::Integer(i1) => match v2 {
            Value::Integer(i2) => *i1 == *i2,
            _ => false,
        },
        Value::Float(f1) => match v2 {
            Value::Float(f2) => floats::f64_eq_exec(*f1, *f2),
            _ => false,
        },
        Value::Boolean(b1) => match v2 {
            Value::Boolean(b2) => *b1 == *b2,
            _ => false,
        },
        Value::String(s1) => match v2 {
            Value::String(s2) => *s1 == *s2,
            _ => false,
        },
        Value::Null => match v2 {
            Value::Null => true,
            _ => false,
        },
        _ => false,
    }
}

/// The ordered comparison of two values, or a type error naming the
/// operator: less-than and equality together, from which each comparison
/// opcode derives its answer.
fn ordered_exec(v1: &Value, v2: &Value, op_name: &str) -> (r: Result<(bool, bool), VMError>)
    ensures
        match r {
            Result::Ok(p) => spec_ordered(value_view(*v1), value_view(*v2), op_name@)
                == Result::<(bool, bool), VMErrorV>::Ok(p),
            Result::Err(e) => spec_ordered(value_view(*v1), value_view(*v2), op_name@)
                == Result::<(bool, bool), VMErrorV>::Err(e@),
        },
{
    match (v1, v2) {
        (Value::Integer(i1), Value::Integer(i2)) => Ok((*i1 < *i2, *i1 == *i2)),
        (Value::Float(f1), Value::Float(f2)) => Ok((floats::f64_lt_exec(*f1, *f2),
            floats::f64_eq_exec(*f1, *f2))),
        (Value::Integer(i), Value::Float(f)) => {
            let fi = floats::f64_from_i64(*i);
            Ok((floats::f64_lt_exec(fi, *f), floats::f64_eq_exec(fi, *f)))
        },
        (Value::Float(f), Value::Integer(i)) => {
            let fi = floats::f64_from_i64(*i);
            Ok((floats::f64_lt_exec(*f, fi), floats::f64_eq_exec(*f, fi)))
        },
        (Value::String(s1), Value::String(s2)) => Ok((str_lt_exec(s1.as_str(), s2.as_str()),
            *s1 == *s2)),
        _ => {
            let mut msg = "Cannot compare ".to_owned();
            msg.append(v1.render().as_str());
            msg.append(" and ");
            msg.append(v2.render().as_str());
            msg.append(" with ");
            msg.append(op_name);
            Err(VMError::TypeError(msg))
        },
    }
}

/// The manager model holds an id exactly when the manager's registry does.
proof fn lemma_mgr_has<T>(m: MemoryManager<T>, id: u32)
    ensures
        mgr_has(mgr_of(m), id) == m.spec_has_heap(id),
{
    if m.spec_has_heap(id) {
        let w = choose|i: int| 0 <= i < m.heaps@.len() && (#[trigger] m.heaps@[i]).id == id;
        assert(mgr_of(m).heap_ids[w] == id);
    }
    if mgr_has(mgr_of(m), id) {
        let w = choose|i: int| 0 <= i < mgr_of(m).heap_ids.len()
            && mgr_of(m).heap_ids[i] == id;
        assert(m.heaps@[w].id == id);
    }
}

/// The stack-manipulation and control opcodes that touch at most the top of the stack. The outcome is exactly what `step_of` says.
#[verifier::rlimit(100)]
#[verifier::spinoff_prover]
fn step_basic(context: &mut ExecutionContext, instr: &crate::bytecode::Instruction) -> (r: StepOutcome)
    requires
        old(context).memory.wf(),
        old(context).pc < old(context).module.instructions@.len(),
        old(context).current_exception is None,
        instr@ == views_of_instructions(old(context).module.instructions@)[old(context).pc as int],
        (instr@.opcode == OpCode::Nop || instr@.opcode == OpCode::Halt || instr@.opcode == OpCode::Print || instr@.opcode == OpCode::Push || instr@.opcode == OpCode::Pop || instr@.opcode == OpCode::Dup || instr@.opcode == OpCode::Swap),
    ensures
        final(context).memory.wf(),
        final(context).module == old(context).module,
        final(context).stack_trace_enabled == old(context).stack_trace_enabled,
        match r {
            StepOutcome::Continue => step_of(prog_of(old(context).module), old(context).state(),
                mgr_of(old(context).memory))
                == StepResultV::Next(final(context).state(), mgr_of(final(context).memory)),
            StepOutcome::Halted(v) => step_of(prog_of(old(context).module), old(context).state(),
                mgr_of(old(context).memory)) == StepResultV::Halted(value_view(v))
                && mgr_of(final(context).memory) == mgr_of(old(context).memory)
                && final(context).state() == (ContextV {
                    stack: if old(context).state().stack.len() > 0 {
                        old(context).state().stack.drop_last()
                    } else {
                        old(context).state().stack
                    },
                    ..old(context).state()
                }),
            StepOutcome::Failed(e) => step_of(prog_of(old(context).module), old(context).state(),
                mgr_of(old(context).memory)) == StepResultV::Failed(e@)
                && mgr_of(final(context).memory) == mgr_of(old(context).memory),
        },
{
    let ghost prog = prog_of(old(context).module);
    let ghost c0 = old(context).state();
    let ghost m0 = mgr_of(old(context).memory);
    let pc = context.pc;
    let icount = context.module.instructions.len();

        match instr.opcode {
            OpCode::Nop => {
                context.increment_pc();
                StepOutcome::Continue
            },
            OpCode::Halt => {
                match context.pop() {
                    Ok(v) => StepOutcome::Halted(v),
                    Err(_) => StepOutcome::Halted(Value::Null),
                }
            },
            OpCode::Print => {
                let value = match context.pop() {
                    Ok(v) => v,
                    Err(e) => { return StepOutcome::Failed(e); },
                };
                print_line(value.render().as_str());
                context.increment_pc();
                StepOutcome::Continue
            },
            OpCode::Push => {
                let const_idx = op(&instr, 0);
                let value = match context.get_constant(const_idx) {
                    Ok(v) => v,
                    Err(e) => { return StepOutcome::Failed(e); },
                };
                let pr = context.push(value);
                context.increment_pc();
                StepOutcome::Continue
            },
            OpCode::Pop => {
                match context.pop() {
                    Ok(_) => {},
                    Err(e) => { return StepOutcome::Failed(e); },
                }
                context.increment_pc();
                StepOutcome::Continue
            },
            OpCode::Dup => {
                let value = match context.peek() {
                    Ok(v) => v.clone(),
                    Err(e) => { return StepOutcome::Failed(e); },
                };
                let pr = context.push(value);
                context.increment_pc();
                StepOutcome::Continue
            },
            OpCode::Swap => {
                let v1 = match context.pop() {
                    Ok(v) => v,
                    Err(e) => { return StepOutcome::Failed(e); },
                };
                let v2 = match context.pop() {
                    Ok(v) => v,
                    Err(e) => { return StepOutcome::Failed(e); },
                };
                let p1 = context.push(v1);
                let p2 = context.push(v2);
                context.increment_pc();
                StepOutcome::Continue
            },
            _ => {
                proof { assert(false); }
                StepOutcome::Failed(VMError::InvalidOperand)
            },
        }
}

/// The arithmetic opcodes. The outcome is exactly what `step_of` says.
#[verifier::rlimit(100)]
#[verifier::spinoff_prover]
fn step_arith(context: &mut ExecutionContext, instr: &crate::bytecode::Instruction) -> (r: StepOutcome)
    requires
        old(context).memory.wf(),
        old(context).pc < old(context).module.instructions@.len(),
        old(context).current_exception is None,
        instr@ == views_of_instructions(old(context).module.instructions@)[old(context).pc as int],
        (instr@.opcode == OpCode::Add || instr@.opcode == OpCode::Sub || instr@.opcode == OpCode::Mul || instr@.opcode == OpCode::Div || instr@.opcode == OpCode::Neg),
    ensures
        final(context).memory.wf(),
        final(context).module == old(context).module,
        final(context).stack_trace_enabled == old(context).stack_trace_enabled,
        match r {
            StepOutcome::Continue => step_of(prog_of(old(context).module), old(context).state(),
                mgr_of(old(context).memory))
                == StepResultV::Next(final(context).state(), mgr_of(final(context).memory)),
            StepOutcome::Halted(v) => step_of(prog_of(old(context).module), old(context).state(),
                mgr_of(old(context).memory)) == StepResultV::Halted(value_view(v))
                && mgr_of(final(context).memory) == mgr_of(old(context).memory)
                && final(context).state() == (ContextV {
                    stack: if old(context).state().stack.len() > 0 {
                        old(context).state().stack.drop_last()
                    } else {
                        old(context).state().stack
                    },
                    ..old(context).state()
                }),
            StepOutcome::Failed(e) => step_of(prog_of(old(context).module), old(context).state(),
                mgr_of(old(context).memory)) == StepResultV::Failed(e@)
                && mgr_of(final(context).memory) == mgr_of(old(context).memory),
        },
{
    let ghost prog = prog_of(old(context).module);
    let ghost c0 = old(context).state();
    let ghost m0 = mgr_of(old(context).memory);
    let pc = context.pc;
    let icount = context.module.instructions.len();

        match instr.opcode {
            OpCode::Add => {
                let v2 = match context.pop() {
                    Ok(v) => v,
                    Err(e) => { return StepOutcome::Failed(e); },
                };
                let v1 = match context.pop() {
                    Ok(v) => v,
                    Err(e) => { return StepOutcome::Failed(e); },
                };
                let result: Value = match (&v1, &v2) {
                    (Value::Integer(i1), Value::Integer(i2)) => Value::Integer(i1.wrapping_add(*i2)),
                    (Value::Float(f1), Value::Float(f2)) => Value::Float(floats::f64_add(*f1, *f2)),
                    (Value::Integer(i), Value::Float(f)) => Value::Float(
                        floats::f64_add(floats::f64_from_i64(*i), *f)),
                    (Value::Float(f), Value::Integer(i)) => Value::Float(
                        floats::f64_add(*f, floats::f64_from_i64(*i))),
                    (Value::String(s1), Value::String(s2)) => {
                        let mut joined = s1.clone();
                        joined.append(s2.as_str());
                        Value::String(joined)
                    },
                    _ => {
                        let mut msg = "Cannot add ".to_owned();
                        msg.append(v1.render().as_str());
                        msg.append(" and ");
                        msg.append(v2.render().as_str());
                        return StepOutcome::Failed(VMError::TypeError(msg));
                    },
                };
                let pr = context.push(result);
                context.increment_pc();
                StepOutcome::Continue
            },
            OpCode::Sub => {
                let v2 = match context.pop() {
                    Ok(v) => v,
                    Err(e) => { return StepOutcome::Failed(e); },
                };
                let v1 = match context.pop() {
                    Ok(v) => v,
                    Err(e) => { return StepOutcome::Failed(e); },
                };
                let result: Value = match (&v1, &v2) {
                    (Value::Integer(i1), Value::Integer(i2)) => Value::Integer(i1.wrapping_sub(*i2)),
                    (Value::Float(f1), Value::Float(f2)) => Value::Float(floats::f64_sub(*f1, *f2)),
                    (Value::Integer(i), Value::Float(f)) => Value::Float(
                        floats::f64_sub(floats::f64_from_i64(*i), *f)),
                    (Value::Float(f), Value::Integer(i)) => Value::Float(
                        floats::f64_sub(*f, floats::f64_from_i64(*i))),
                    _ => {
                        let mut msg = "Cannot subtract ".to_owned();
                        msg.append(v2.render().as_str());
                        msg.append(" from ");
                        msg.append(v1.render().as_str());
                        return StepOutcome::Failed(VMError::TypeError(msg));
                    },
                };
                let pr = context.push(result);
                context.increment_pc();
                StepOutcome::Continue
            },
            OpCode::Mul => {
                let v2 = match context.pop() {
                    Ok(v) => v,
                    Err(e) => { return StepOutcome::Failed(e); },
                };
                let v1 = match context.pop() {
                    Ok(v) => v,
                    Err(e) => { return StepOutcome::Failed(e); },
                };
                let result: Value = match (&v1, &v2) {
                    (Value::Integer(i1), Value::Integer(i2)) => Value::Integer(i1.wrapping_mul(*i2)),
                    (Value::Float(f1), Value::Float(f2)) => Value::Float(floats::f64_mul(*f1, *f2)),
                    (Value::Integer(i), Value::Float(f)) => Value::Float(
                        floats::f64_mul(floats::f64_from_i64(*i), *f)),
                    (Value::Float(f), Value::Integer(i)) => Value::Float(
                        floats::f64_mul(*f, floats::f64_from_i64(*i))),
                    _ => {
                        let mut msg = "Cannot multiply ".to_owned();
                        msg.append(v1.render().as_str());
                        msg.append(" and ");
                        msg.append(v2.render().as_str());
                        return StepOutcome::Failed(VMError::TypeError(msg));
                    },
                };
                let pr = context.push(result);
                context.increment_pc();
                StepOutcome::Continue
            },
            OpCode::Div => {
                let v2 = match context.pop() {
                    Ok(v) => v,
                    Err(e) => { return StepOutcome::Failed(e); },
                };
                let v1 = match context.pop() {
                    Ok(v) => v,
                    Err(e) => { return StepOutcome::Failed(e); },
                };
                let (rem, quot): (Value, Value) = match (&v1, &v2) {
                    (Value::Integer(i1), Value::Integer(i2)) => {
                        if *i2 == 0 {
                            return StepOutcome::Failed(VMError::DivisionByZero);
                        }
                        if *i1 == i64::MIN && *i2 == -1 {
                            return StepOutcome::Failed(VMError::ArithmeticError(
                                "integer overflow in division".to_owned()));
                        }
                        (Value::Integer(rem_trunc_exec(*i1, *i2)),
                            Value::Integer(div_trunc_exec(*i1, *i2)))
                    },
                    (Value::Float(f1), Value::Float(f2)) => {
                        if floats::f64_is_zero_exec(*f2) {
                            return StepOutcome::Failed(VMError::DivisionByZero);
                        }
                        (Value::Float(floats::f64_fmod(*f1, *f2)),
                            Value::Float(floats::f64_div(*f1, *f2)))
                    },
                    (Value::Integer(i), Value::Float(f)) => {
                        if floats::f64_is_zero_exec(*f) {
                            return StepOutcome::Failed(VMError::DivisionByZero);
                        }
                        let fi = floats::f64_from_i64(*i);
                        (Value::Float(floats::f64_fmod(fi, *f)), Value::Float(floats::f64_div(fi, *f)))
                    },
                    (Value::Float(f), Value::Integer(i)) => {
                        if *i == 0 {
                            return StepOutcome::Failed(VMError::DivisionByZero);
                        }
                        let fi = floats::f64_from_i64(*i);
                        (Value::Float(floats::f64_fmod(*f, fi)), Value::Float(floats::f64_div(*f, fi)))
                    },
                    _ => {
                        let mut msg = "Cannot divide ".to_owned();
                        msg.append(v1.render().as_str());
                        msg.append(" by ");
                        msg.append(v2.render().as_str());
                        return StepOutcome::Failed(VMError::TypeError(msg));
                    },
                };
                let p1 = context.push(rem);
                let p2 = context.push(quot);
                context.increment_pc();
                StepOutcome::Continue
            },
            OpCode::Neg => {
                let value = match context.pop() {
                    Ok(v) => v,
                    Err(e) => { return StepOutcome::Failed(e); },
                };
                let result: Value = match &value {
                    Value::Integer(i) => Value::Integer(0i64.wrapping_sub(*i)),
                    Value::Float(f) => Value::Float(floats::f64_neg_exec(*f)),
                    _ => {
                        let mut msg = "Cannot negate ".to_owned();
                        msg.append(value.render().as_str());
                        return StepOutcome::Failed(VMError::TypeError(msg));
                    },
                };
                let pr = context.push(result);
                context.increment_pc();
                StepOutcome::Continue
            },
            _ => {
                proof { assert(false); }
                StepOutcome::Failed(VMError::InvalidOperand)
            },
        }
}

/// The bitwise opcodes. The outcome is exactly what `step_of` says.
#[verifier::rlimit(100)]
#[verifier::spinoff_prover]
fn step_bits(context: &mut ExecutionContext, instr: &crate::bytecode::Instruction) -> (r: StepOutcome)
    requires
        old(context).memory.wf(),
        old(context).pc < old(context).module.instructions@.len(),
        old(context).current_exception is None,
        instr@ == views_of_instructions(old(context).module.instructions@)[old(context).pc as int],
        (instr@.opcode == OpCode::BitAnd || instr@.opcode == OpCode::BitOr || instr@.opcode == OpCode::BitXor || instr@.opcode == OpCode::BitNot || instr@.opcode == OpCode::ShiftLeft || instr@.opcode == OpCode::ShiftRight || instr@.opcode == OpCode::RotateLeft || instr@.opcode == OpCode::RotateRight),
    ensures
        final(context).memory.wf(),
        final(context).module == old(context).module,
        final(context).stack_trace_enabled == old(context).stack_trace_enabled,
        match r {
            StepOutcome::Continue => step_of(prog_of(old(context).module), old(context).state(),
                mgr_of(old(context).memory))
                == StepResultV::Next(final(context).state(), mgr_of(final(context).memory)),
            StepOutcome::Halted(v) => step_of(prog_of(old(context).module), old(context).state(),
                mgr_of(old(context).memory)) == StepResultV::Halted(value_view(v))
                && mgr_of(final(context).memory) == mgr_of(old(context).memory)
                && final(context).state() == (ContextV {
                    stack: if old(context).state().stack.len() > 0 {
                        old(context).state().stack.drop_last()
                    } else {
                        old(context).state().stack
                    },
                    ..old(context).state()
                }),
            StepOutcome::Failed(e) => step_of(prog_of(old(context).module), old(context).state(),
                mgr_of(old(context).memory)) == StepResultV::Failed(e@)
                && mgr_of(final(context).memory) == mgr_of(old(context).memory),
        },
{
    let ghost prog = prog_of(old(context).module);
    let ghost c0 = old(context).state();
    let ghost m0 = mgr_of(old(context).memory);
    let pc = context.pc;
    let icount = context.module.instructions.len();

        match instr.opcode {
            OpCode::BitAnd | OpCode::BitOr | OpCode::BitXor => {
                let v2 = match context.pop() {
                    Ok(v) => v,
                    Err(e) => { return StepOutcome::Failed(e); },
                };
                let v1 = match context.pop() {
                    Ok(v) => v,
                    Err(e) => { return StepOutcome::Failed(e); },
                };
                let result: Value = match (&v1, &v2) {
                    (Value::Integer(i1), Value::Integer(i2)) => match instr.opcode {
                        OpCode::BitAnd => Value::Integer(*i1 & *i2),
                        OpCode::BitOr => Value::Integer(*i1 | *i2),
                        _ => Value::Integer(*i1 ^ *i2),
                    },
                    _ => {
                        let msg: String = match instr.opcode {
                            OpCode::BitAnd => "Cannot perform bitwise AND on non-integer values".to_owned(),
                            OpCode::BitOr => "Cannot perform bitwise OR on non-integer values".to_owned(),
                            _ => "Cannot perform bitwise XOR on non-integer values".to_owned(),
                        };
                        return StepOutcome::Failed(VMError::TypeError(msg));
                    },
                };
                let pr = context.push(result);
                context.increment_pc();
                proof {
                    assert(step_of(prog, c0, m0)
                        == StepResultV::Next(context.state(), mgr_of(context.memory)));
                }
                StepOutcome::Continue
            },
            OpCode::BitNot => {
                let value = match context.pop() {
                    Ok(v) => v,
                    Err(e) => { return StepOutcome::Failed(e); },
                };
                let result: Value = match &value {
                    Value::Integer(i) => Value::Integer(-1 - *i),
                    _ => {
                        return StepOutcome::Failed(VMError::TypeError(
                            "Cannot perform bitwise NOT on non-integer value".to_owned()));
                    },
                };
                let pr = context.push(result);
                context.increment_pc();
                proof {
                    assert(step_of(prog, c0, m0)
                        == StepResultV::Next(context.state(), mgr_of(context.memory)));
                }
                StepOutcome::Continue
            },
            OpCode::ShiftLeft | OpCode::ShiftRight => {
                let v2 = match context.pop() {
                    Ok(v) => v,
                    Err(e) => { return StepOutcome::Failed(e); },
                };
                let v1 = match context.pop() {
                    Ok(v) => v,
                    Err(e) => { return StepOutcome::Failed(e); },
                };
                let result: Value = match (&v1, &v2) {
                    (Value::Integer(i1), Value::Integer(i2)) => {
                        if *i2 < 0 {
                            let msg: String = match instr.opcode {
                                OpCode::ShiftLeft => "Cannot shift left by negative amount".to_owned(),
                                _ => "Cannot shift right by negative amount".to_owned(),
                            };
                            return StepOutcome::Failed(VMError::InvalidOperation(msg));
                        }
                        if *i2 >= 64 {
                            return StepOutcome::Failed(VMError::InvalidOperation(
                                "shift amount out of range".to_owned()));
                        }
                        match instr.opcode {
                            OpCode::ShiftLeft => Value::Integer(*i1 << *i2),
                            _ => Value::Integer(*i1 >> *i2),
                        }
                    },
                    _ => {
                        let msg: String = match instr.opcode {
                            OpCode::ShiftLeft => "Cannot perform shift left on non-integer values".to_owned(),
                            _ => "Cannot perform shift right on non-integer values".to_owned(),
                        };
                        return StepOutcome::Failed(VMError::TypeError(msg));
                    },
                };
                let pr = context.push(result);
                context.increment_pc();
                proof {
                    assert(step_of(prog, c0, m0)
                        == StepResultV::Next(context.state(), mgr_of(context.memory)));
                }
                StepOutcome::Continue
            },
            OpCode::RotateLeft | OpCode::RotateRight => {
                let v2 = match context.pop() {
                    Ok(v) => v,
                    Err(e) => { return StepOutcome::Failed(e); },
                };
                let v1 = match context.pop() {
                    Ok(v) => v,
                    Err(e) => { return StepOutcome::Failed(e); },
                };
                let result: Value = match (&v1, &v2) {
                    (Value::Integer(i1), Value::Integer(i2)) => {
                        if *i2 < 0 {
                            let msg: String = match instr.opcode {
                                OpCode::RotateLeft => "Cannot rotate left by negative amount".to_owned(),
                                _ => "Cannot rotate right by negative amount".to_owned(),
                            };
                            return StepOutcome::Failed(VMError::InvalidOperation(msg));
                        }
                        if *i2 > 32 {
                            return StepOutcome::Failed(VMError::InvalidOperation(
                                "rotate amount out of range".to_owned()));
                        }
                        let amount: i64 = *i2;
                        let other: i64 = 32 - amount;
                        match instr.opcode {
                            OpCode::RotateLeft => {
                                let res: i64 = (*i1 << amount) | (*i1 >> other);
                                proof {
                                    assert(res == (value_view(v1)->Integer_0 << value_view(v2)->Integer_0)
                                        | (value_view(v1)->Integer_0 >> ((32 - value_view(v2)->Integer_0) as i64)));
                                }
                                Value::Integer(res)
                            },
                            _ => {
                                let res: i64 = (*i1 >> amount) | (*i1 << other);
                                proof {
                                    assert(res == (value_view(v1)->Integer_0 >> value_view(v2)->Integer_0)
                                        | (value_view(v1)->Integer_0 << ((32 - value_view(v2)->Integer_0) as i64)));
                                }
                                Value::Integer(res)
                            },
                        }
                    },
                    _ => {
                        let msg: String = match instr.opcode {
                            OpCode::RotateLeft => "Cannot perform rotate left on non-integer values".to_owned(),
                            _ => "Cannot perform rotate right on non-integer values".to_owned(),
                        };
                        return StepOutcome::Failed(VMError::TypeError(msg));
                    },
                };
                let pr = context.push(result);
                context.increment_pc();
                proof {
                    assert(step_of(prog, c0, m0)
                        == StepResultV::Next(context.state(), mgr_of(context.memory)));
                }
                StepOutcome::Continue
            },
            _ => {
                proof { assert(false); }
                StepOutcome::Failed(VMError::InvalidOperand)
            },
        }
}

/// The logical and comparison opcodes. The outcome is exactly what `step_of` says.
#[verifier::rlimit(100)]
#[verifier::spinoff_prover]
fn step_logic(context: &mut ExecutionContext, instr: &crate::bytecode::Instruction) -> (r: StepOutcome)
    requires
        old(context).memory.wf(),
        old(context).pc < old(context).module.instructions@.len(),
        old(context).current_exception is None,
        instr@ == views_of_instructions(old(context).module.instructions@)[old(context).pc as int],
        (instr@.opcode == OpCode::And || instr@.opcode == OpCode::Or || instr@.opcode == OpCode::Not || instr@.opcode == OpCode::Eq || instr@.opcode == OpCode::Neq || instr@.opcode == OpCode::Lt || instr@.opcode == OpCode::Lte || instr@.opcode == OpCode::Gt || instr@.opcode == OpCode::Gte),
    ensures
        final(context).memory.wf(),
        final(context).module == old(context).module,
        final(context).stack_trace_enabled == old(context).stack_trace_enabled,
        match r {
            StepOutcome::Continue => step_of(prog_of(old(context).module), old(context).state(),
                mgr_of(old(context).memory))
                == StepResultV::Next(final(context).state(), mgr_of(final(context).memory)),
            StepOutcome::Halted(v) => step_of(prog_of(old(context).module), old(context).state(),
                mgr_of(old(context).memory)) == StepResultV::Halted(value_view(v))
                && mgr_of(final(context).memory) == mgr_of(old(context).memory)
                && final(context).state() == (ContextV {
                    stack: if old(context).state().stack.len() > 0 {
                        old(context).state().stack.drop_last()
                    } else {
                        old(context).state().stack
                    },
                    ..old(context).state()
                }),
            StepOutcome::Failed(e) => step_of(prog_of(old(context).module), old(context).state(),
                mgr_of(old(context).memory)) == StepResultV::Failed(e@)
                && mgr_of(final(context).memory) == mgr_of(old(context).memory),
        },
{
    let ghost prog = prog_of(old(context).module);
    let ghost c0 = old(context).state();
    let ghost m0 = mgr_of(old(context).memory);
    let pc = context.pc;
    let icount = context.module.instructions.len();

        match instr.opcode {
            OpCode::And | OpCode::Or => {
                let v2 = match context.pop() {
                    Ok(v) => v,
                    Err(e) => { return StepOutcome::Failed(e); },
                };
                let v1 = match context.pop() {
                    Ok(v) => v,
                    Err(e) => { return StepOutcome::Failed(e); },
                };
                let result = match instr.opcode {
                    OpCode::And => v1.is_truthy() && v2.is_truthy(),
                    _ => v1.is_truthy() || v2.is_truthy(),
                };
                let pr = context.push(Value::Boolean(result));
                context.increment_pc();
                StepOutcome::Continue
            },
            OpCode::Not => {
                let value = match context.pop() {
                    Ok(v) => v,
                    Err(e) => { return StepOutcome::Failed(e); },
                };
                let pr = context.push(Value::Boolean(!value.is_truthy()));
                context.increment_pc();
                StepOutcome::Continue
            },
            OpCode::Eq | OpCode::Neq => {
                let v2 = match context.pop() {
                    Ok(v) => v,
                    Err(e) => { return StepOutcome::Failed(e); },
                };
                let v1 = match context.pop() {
                    Ok(v) => v,
                    Err(e) => { return StepOutcome::Failed(e); },
                };
                let equal = values_equal_exec(&v1, &v2);
                let result = match instr.opcode {
                    OpCode::Eq => equal,
                    _ => !equal,
                };
                let pr = context.push(Value::Boolean(result));
                context.increment_pc();
                StepOutcome::Continue
            },
            OpCode::Lt | OpCode::Lte | OpCode::Gt | OpCode::Gte => {
                let v2 = match context.pop() {
                    Ok(v) => v,
                    Err(e) => { return StepOutcome::Failed(e); },
                };
                let v1 = match context.pop() {
                    Ok(v) => v,
                    Err(e) => { return StepOutcome::Failed(e); },
                };
                let op_name: &str = match instr.opcode {
                    OpCode::Lt => "<",
                    OpCode::Lte => "<=",
                    OpCode::Gt => ">",
                    _ => ">=",
                };
                let (lt, eq) = match ordered_exec(&v1, &v2, op_name) {
                    Ok(p) => p,
                    Err(e) => { return StepOutcome::Failed(e); },
                };
                let result = match instr.opcode {
                    OpCode::Lt => lt,
                    OpCode::Lte => lt || eq,
                    OpCode::Gt => !lt && !eq,
                    _ => !lt,
                };
                let pr = context.push(Value::Boolean(result));
                context.increment_pc();
                StepOutcome::Continue
            },
            _ => {
                proof { assert(false); }
                StepOutcome::Failed(VMError::InvalidOperand)
            },
        }
}

/// The control-flow opcodes. The outcome is exactly what `step_of` says.
#[verifier::rlimit(100)]
#[verifier::spinoff_prover]
fn step_control(context: &mut ExecutionContext, instr: &crate::bytecode::Instruction) -> (r: StepOutcome)
    requires
        old(context).memory.wf(),
        old(context).pc < old(context).module.instructions@.len(),
        old(context).current_exception is None,
        instr@ == views_of_instructions(old(context).module.instructions@)[old(context).pc as int],
        (instr@.opcode == OpCode::Jump || instr@.opcode == OpCode::JumpIf || instr@.opcode == OpCode::JumpIfNot || instr@.opcode == OpCode::Call || instr@.opcode == OpCode::Return),
    ensures
        final(context).memory.wf(),
        final(context).module == old(context).module,
        final(context).stack_trace_enabled == old(context).stack_trace_enabled,
        match r {
            StepOutcome::Continue => step_of(prog_of(old(context).module), old(context).state(),
                mgr_of(old(context).memory))
                == StepResultV::Next(final(context).state(), mgr_of(final(context).memory)),
            StepOutcome::Halted(v) => step_of(prog_of(old(context).module), old(context).state(),
                mgr_of(old(context).memory)) == StepResultV::Halted(value_view(v))
                && mgr_of(final(context).memory) == mgr_of(old(context).memory)
                && final(context).state() == (ContextV {
                    stack: if old(context).state().stack.len() > 0 {
                        old(context).state().stack.drop_last()
                    } else {
                        old(context).state().stack
                    },
                    ..old(context).state()
                }),
            StepOutcome::Failed(e) => step_of(prog_of(old(context).module), old(context).state(),
                mgr_of(old(context).memory)) == StepResultV::Failed(e@)
                && mgr_of(final(context).memory) == mgr_of(old(context).memory),
        },
{
    let ghost prog = prog_of(old(context).module);
    let ghost c0 = old(context).state();
    let ghost m0 = mgr_of(old(context).memory);
    let pc = context.pc;
    let icount = context.module.instructions.len();

        match instr.opcode {
            OpCode::Jump => {
                let target = op(&instr, 0) as usize;
                if target >= context.module.instructions.len() {
                    return StepOutcome::Failed(VMError::InvalidProgramCounter(target));
                }
                context.set_pc(target);
                StepOutcome::Continue
            },
            OpCode::JumpIf | OpCode::JumpIfNot => {
                let target_op = op(&instr, 0);
                let condition = match context.pop() {
                    Ok(v) => v,
                    Err(e) => { return StepOutcome::Failed(e); },
                };
                let truthy = condition.is_truthy();
                let jumps = match instr.opcode {
                    OpCode::JumpIf => truthy,
                    _ => !truthy,
                };
                if jumps {
                    let target = target_op as usize;
                    if target >= context.module.instructions.len() {
                        return StepOutcome::Failed(VMError::InvalidProgramCounter(target));
                    }
                    context.set_pc(target);
                } else {
                    context.increment_pc();
                }
                StepOutcome::Continue
            },
            OpCode::Call => {
                let target = op(&instr, 0) as usize;
                if target >= context.module.instructions.len() {
                    return StepOutcome::Failed(VMError::InvalidProgramCounter(target));
                }
                let pr = context.push(Value::ProgramCounter(pc + 1));
                context.set_pc(target);
                StepOutcome::Continue
            },
            OpCode::Return => {
                let target = match context.pop() {
                    Ok(v) => v,
                    Err(e) => { return StepOutcome::Failed(e); },
                };
                let return_address: usize = match &target {
                    Value::ProgramCounter(ra) => *ra,
                    _ => {
                        let mut msg = "Expected program counter, found ".to_owned();
                        msg.append(target.render().as_str());
                        return StepOutcome::Failed(VMError::TypeError(msg));
                    },
                };
                if return_address >= context.module.instructions.len() {
                    return StepOutcome::Failed(VMError::InvalidProgramCounter(return_address));
                }
                context.set_pc(return_address);
                StepOutcome::Continue
            },
            _ => {
                proof { assert(false); }
                StepOutcome::Failed(VMError::InvalidOperand)
            },
        }
}

/// The exception-handling opcodes. The outcome is exactly what `step_of` says.
#[verifier::rlimit(100)]
#[verifier::spinoff_prover]
fn step_try(context: &mut ExecutionContext, instr: &crate::bytecode::Instruction) -> (r: StepOutcome)
    requires
        old(context).memory.wf(),
        old(context).pc < old(context).module.instructions@.len(),
        old(context).current_exception is None,
        instr@ == views_of_instructions(old(context).module.instructions@)[old(context).pc as int],
        (instr@.opcode == OpCode::TryBlock || instr@.opcode == OpCode::CatchBlock || instr@.opcode == OpCode::FinallyBlock || instr@.opcode == OpCode::EndTry || instr@.opcode == OpCode::Throw || instr@.opcode == OpCode::Rethrow),
    ensures
        final(context).memory.wf(),
        final(context).module == old(context).module,
        final(context).stack_trace_enabled == old(context).stack_trace_enabled,
        match r {
            StepOutcome::Continue => step_of(prog_of(old(context).module), old(context).state(),
                mgr_of(old(context).memory))
                == StepResultV::Next(final(context).state(), mgr_of(final(context).memory)),
            StepOutcome::Halted(v) => step_of(prog_of(old(context).module), old(context).state(),
                mgr_of(old(context).memory)) == StepResultV::Halted(value_view(v))
                && mgr_of(final(context).memory) == mgr_of(old(context).memory)
                && final(context).state() == (ContextV {
                    stack: if old(context).state().stack.len() > 0 {
                        old(context).state().stack.drop_last()
                    } else {
                        old(context).state().stack
                    },
                    ..old(context).state()
                }),
            StepOutcome::Failed(e) => step_of(prog_of(old(context).module), old(context).state(),
                mgr_of(old(context).memory)) == StepResultV::Failed(e@)
                && mgr_of(final(context).memory) == mgr_of(old(context).memory),
        },
{
    let ghost prog = prog_of(old(context).module);
    let ghost c0 = old(context).state();
    let ghost m0 = mgr_of(old(context).memory);
    let pc = context.pc;
    let icount = context.module.instructions.len();

        match instr.opcode {
            OpCode::TryBlock => {
                let end_pc = op(&instr, 2) as usize;
                let depth = context.stack_depth();
                if instr.operands.len() > 1 {
                    context.push_exception_handler(ExceptionHandler {
                        handler_type: HandlerType::Finally,
                        handler_pc: op(&instr, 1) as usize,
                        end_pc,
                        stack_depth: depth,
                    });
                }
                if instr.operands.len() > 0 {
                    let catch_end = if instr.operands.len() > 1 {
                        op(&instr, 1) as usize
                    } else {
                        end_pc
                    };
                    context.push_exception_handler(ExceptionHandler {
                        handler_type: HandlerType::Catch,
                        handler_pc: op(&instr, 0) as usize,
                        end_pc: catch_end,
                        stack_depth: depth,
                    });
                }
                context.increment_pc();
                StepOutcome::Continue
            },
            OpCode::CatchBlock => {
                context.increment_pc();
                StepOutcome::Continue
            },
            OpCode::FinallyBlock => {
                context.increment_pc();
                StepOutcome::Continue
            },
            OpCode::EndTry => {
                let popped = context.pop_exception_handler();
                context.increment_pc();
                StepOutcome::Continue
            },
            OpCode::Throw => {
                let exception_data = match context.pop() {
                    Ok(v) => v,
                    Err(e) => { return StepOutcome::Failed(e); },
                };
                let mut exception_value: Value = match &exception_data {
                    Value::String(message) => Value::create_exception("Error", message.as_str()),
                    Value::Array(array) => {
                        if array.len() >= 2 {
                            let typ: String = match &array[0] {
                                Value::String(s) => s.clone(),
                                _ => "Error".to_owned(),
                            };
                            let msg: String = match &array[1] {
                                Value::String(s) => s.clone(),
                                v => v.render(),
                            };
                            proof {
                                crate::value::lemma_view_of_values_index(array@, 0);
                                crate::value::lemma_view_of_values_index(array@, 1);
                            }
                            Value::create_exception(typ.as_str(), msg.as_str())
                        } else {
                            proof {
                                crate::value::lemma_view_of_values_len(array@);
                            }
                            Value::create_exception("Error", exception_data.render().as_str())
                        }
                    },
                    _ => Value::create_exception("Error", exception_data.render().as_str()),
                };
                let module_name = context.module.name.clone();
                exception_value.add_stack_frame(pc, Some(module_name.as_str()));
                proof {
                    assert(value_view(exception_value)
                        == spec_exception_of(value_view(exception_data), pc as int, prog.name)) by {
                        assert(Seq::<StackFrameV>::empty().push(StackFrameV {
                            pc: pc as int,
                            module: Option::Some(prog.name),
                        }) =~= seq![StackFrameV { pc: pc as int, module: Option::Some(prog.name) }]);
                    }
                }
                context.set_exception(exception_value);
                context.increment_pc();
                StepOutcome::Continue
            },
            OpCode::Rethrow => {
                match context.take_exception() {
                    Some(_) => {
                        proof { assert(false); }
                        StepOutcome::Failed(VMError::InvalidOperand)
                    },
                    None => StepOutcome::Failed(VMError::RuntimeError(
                        "Cannot rethrow without an active exception".to_owned())),
                }
            },
            _ => {
                proof { assert(false); }
                StepOutcome::Failed(VMError::InvalidOperand)
            },
        }
}

/// The local-variable opcodes. The outcome is exactly what `step_of` says.
#[verifier::rlimit(100)]
#[verifier::spinoff_prover]
fn step_locals(context: &mut ExecutionContext, instr: &crate::bytecode::Instruction) -> (r: StepOutcome)
    requires
        old(context).memory.wf(),
        old(context).pc < old(context).module.instructions@.len(),
        old(context).current_exception is None,
        instr@ == views_of_instructions(old(context).module.instructions@)[old(context).pc as int],
        (instr@.opcode == OpCode::StoreLocal || instr@.opcode == OpCode::LoadLocal),
    ensures
        final(context).memory.wf(),
        final(context).module == old(context).module,
        final(context).stack_trace_enabled == old(context).stack_trace_enabled,
        match r {
            StepOutcome::Continue => step_of(prog_of(old(context).module), old(context).state(),
                mgr_of(old(context).memory))
                == StepResultV::Next(final(context).state(), mgr_of(final(context).memory)),
            StepOutcome::Halted(v) => step_of(prog_of(old(context).module), old(context).state(),
                mgr_of(old(context).memory)) == StepResultV::Halted(value_view(v))
                && mgr_of(final(context).memory) == mgr_of(old(context).memory)
                && final(context).state() == (ContextV {
                    stack: if old(context).state().stack.len() > 0 {
                        old(context).state().stack.drop_last()
                    } else {
                        old(context).state().stack
                    },
                    ..old(context).state()
                }),
            StepOutcome::Failed(e) => step_of(prog_of(old(context).module), old(context).state(),
                mgr_of(old(context).memory)) == StepResultV::Failed(e@)
                && mgr_of(final(context).memory) == mgr_of(old(context).memory),
        },
{
    let ghost prog = prog_of(old(context).module);
    let ghost c0 = old(context).state();
    let ghost m0 = mgr_of(old(context).memory);
    let pc = context.pc;
    let icount = context.module.instructions.len();

        match instr.opcode {
            OpCode::StoreLocal => {
                let idx32 = op(&instr, 0);
                let value = match context.pop() {
                    Ok(v) => v,
                    Err(e) => { return StepOutcome::Failed(e); },
                };
                let idx = idx32 as usize;
                if idx >= usize::MAX {
                    return StepOutcome::Failed(VMError::InvalidOperation(
                        "local index out of range".to_owned()));
                }
                let sr = context.store_local(idx, value);
                context.increment_pc();
                StepOutcome::Continue
            },
            OpCode::LoadLocal => {
                let idx = op(&instr, 0) as usize;
                let value = match context.load_local(idx) {
                    Ok(v) => v,
                    Err(e) => { return StepOutcome::Failed(e); },
                };
                let pr = context.push(value);
                context.increment_pc();
                StepOutcome::Continue
            },
            _ => {
                proof { assert(false); }
                StepOutcome::Failed(VMError::InvalidOperand)
            },
        }
}

/// The heap-management opcodes. The outcome is exactly what `step_of` says.
#[verifier::rlimit(100)]
#[verifier::spinoff_prover]
fn step_heap(context: &mut ExecutionContext, instr: &crate::bytecode::Instruction) -> (r: StepOutcome)
    requires
        old(context).memory.wf(),
        old(context).pc < old(context).module.instructions@.len(),
        old(context).current_exception is None,
        instr@ == views_of_instructions(old(context).module.instructions@)[old(context).pc as int],
        (instr@.opcode == OpCode::CreateHeap || instr@.opcode == OpCode::SwitchHeap || instr@.opcode == OpCode::CollectHeap),
    ensures
        final(context).memory.wf(),
        final(context).module == old(context).module,
        final(context).stack_trace_enabled == old(context).stack_trace_enabled,
        match r {
            StepOutcome::Continue => step_of(prog_of(old(context).module), old(context).state(),
                mgr_of(old(context).memory))
                == StepResultV::Next(final(context).state(), mgr_of(final(context).memory)),
            StepOutcome::Halted(v) => step_of(prog_of(old(context).module), old(context).state(),
                mgr_of(old(context).memory)) == StepResultV::Halted(value_view(v))
                && mgr_of(final(context).memory) == mgr_of(old(context).memory)
                && final(context).state() == (ContextV {
                    stack: if old(context).state().stack.len() > 0 {
                        old(context).state().stack.drop_last()
                    } else {
                        old(context).state().stack
                    },
                    ..old(context).state()
                }),
            StepOutcome::Failed(e) => step_of(prog_of(old(context).module), old(context).state(),
                mgr_of(old(context).memory)) == StepResultV::Failed(e@)
                && mgr_of(final(context).memory) == mgr_of(old(context).memory),
        },
{
    let ghost prog = prog_of(old(context).module);
    let ghost c0 = old(context).state();
    let ghost m0 = mgr_of(old(context).memory);
    let pc = context.pc;
    let icount = context.module.instructions.len();

        match instr.opcode {
            OpCode::CreateHeap => {
                proof {
                    lemma_mgr_has(context.memory, context.memory.heap_manager.next_id);
                }
                let heap_id = match context.memory.create_heap() {
                    Ok(id) => id,
                    Err(_) => {
                        return StepOutcome::Failed(VMError::MemoryError(
                            "Operation on current heap failed: heap ids exhausted".to_owned()));
                    },
                };
                proof {
                    assert(mgr_of(context.memory).heap_ids =~= m0.heap_ids.push(heap_id));
                }
                let pr = context.push(Value::HeapId(heap_id));
                context.increment_pc();
                StepOutcome::Continue
            },
            OpCode::SwitchHeap => {
                let heap_ref = match context.pop() {
                    Ok(v) => v,
                    Err(e) => { return StepOutcome::Failed(e); },
                };
                let heap_id: u32 = match &heap_ref {
                    Value::HeapId(id) => *id,
                    Value::Integer(i) => (*i & 0xFFFF_FFFF) as u32,
                    _ => {
                        let mut msg = "Expected heap ID, found ".to_owned();
                        msg.append(heap_ref.render().as_str());
                        return StepOutcome::Failed(VMError::TypeError(msg));
                    },
                };
                proof {
                    lemma_mgr_has(context.memory, heap_id);
                }
                match context.memory.switch_heap(heap_id) {
                    Ok(()) => {
                        proof {
                            assert(mgr_of(context.memory).heap_ids =~= m0.heap_ids);
                        }
                        context.increment_pc();
                        StepOutcome::Continue
                    },
                    Err(_) => {
                        let mut msg = "Operation on current heap failed: Heap ".to_owned();
                        msg.append(crate::decimal::u64_string(heap_id as u64).as_str());
                        msg.append(" does not exist");
                        StepOutcome::Failed(VMError::MemoryError(msg))
                    },
                }
            },
            OpCode::CollectHeap => {
                let heap_ref = match context.pop() {
                    Ok(v) => v,
                    Err(e) => { return StepOutcome::Failed(e); },
                };
                let heap_id: u32 = match &heap_ref {
                    Value::HeapId(id) => *id,
                    Value::Integer(i) => (*i & 0xFFFF_FFFF) as u32,
                    _ => {
                        let mut msg = "Expected heap ID, found ".to_owned();
                        msg.append(heap_ref.render().as_str());
                        return StepOutcome::Failed(VMError::TypeError(msg));
                    },
                };
                proof {
                    lemma_mgr_has(context.memory, heap_id);
                }
                match context.memory.collect_heap(heap_id) {
                    Ok(()) => {
                        proof {
                            assert(mgr_of(context.memory).heap_ids =~= m0.heap_ids);
                            assert(mgr_of(context.memory) == m0);
                        }
                        context.increment_pc();
                        StepOutcome::Continue
                    },
                    Err(_) => {
                        let mut msg = "Operation on current heap failed: Heap ".to_owned();
                        msg.append(crate::decimal::u64_string(heap_id as u64).as_str());
                        msg.append(" does not exist");
                        StepOutcome::Failed(VMError::MemoryError(msg))
                    },
                }
            },
            _ => {
                proof { assert(false); }
                StepOutcome::Failed(VMError::InvalidOperand)
            },
        }
}

/// The array opcodes. The outcome is exactly what `step_of` says.
#[verifier::rlimit(100)]
#[verifier::spinoff_prover]
fn step_arrays(context: &mut ExecutionContext, instr: &crate::bytecode::Instruction) -> (r: StepOutcome)
    requires
        old(context).memory.wf(),
        old(context).pc < old(context).module.instructions@.len(),
        old(context).current_exception is None,
        instr@ == views_of_instructions(old(context).module.instructions@)[old(context).pc as int],
        (instr@.opcode == OpCode::NewArray || instr@.opcode == OpCode::GetElement || instr@.opcode == OpCode::SetElement || instr@.opcode == OpCode::ArrayLength),
    ensures
        final(context).memory.wf(),
        final(context).module == old(context).module,
        final(context).stack_trace_enabled == old(context).stack_trace_enabled,
        match r {
            StepOutcome::Continue => step_of(prog_of(old(context).module), old(context).state(),
                mgr_of(old(context).memory))
                == StepResultV::Next(final(context).state(), mgr_of(final(context).memory)),
            StepOutcome::Halted(v) => step_of(prog_of(old(context).module), old(context).state(),
                mgr_of(old(context).memory)) == StepResultV::Halted(value_view(v))
                && mgr_of(final(context).memory) == mgr_of(old(context).memory)
                && final(context).state() == (ContextV {
                    stack: if old(context).state().stack.len() > 0 {
                        old(context).state().stack.drop_last()
                    } else {
                        old(context).state().stack
                    },
                    ..old(context).state()
                }),
            StepOutcome::Failed(e) => step_of(prog_of(old(context).module), old(context).state(),
                mgr_of(old(context).memory)) == StepResultV::Failed(e@)
                && mgr_of(final(context).memory) == mgr_of(old(context).memory),
        },
{
    let ghost prog = prog_of(old(context).module);
    let ghost c0 = old(context).state();
    let ghost m0 = mgr_of(old(context).memory);
    let pc = context.pc;
    let icount = context.module.instructions.len();

        match instr.opcode {
            OpCode::NewArray => {
                let size = op(&instr, 0) as usize;
                let mut popped: Vec<Value> = Vec::new();
                let mut k: usize = 0;
                while k < size
                    invariant
                        k <= size,
                        (*context == ExecutionContext { stack: context.stack, ..*old(context) }),
                        old(context).memory.wf(),
                        old(context).pc < old(context).module.instructions@.len(),
                        prog == prog_of(old(context).module),
                        m0 == mgr_of(old(context).memory),
                        c0.exception is None,
                        instr@ == prog.instructions[c0.pc],
                        instr.opcode == OpCode::NewArray,
                        size == op_at(instr@, 0) as int,
                        c0 == old(context).state(),
                        k <= c0.stack.len(),
                        context.state().stack == c0.stack.take(c0.stack.len() - k),
                        crate::value::view_of_values(popped@).len() == k,
                        popped@.len() == k,
                        forall|j: int| 0 <= j < k
                            ==> crate::value::view_of_values(popped@)[j]
                                == c0.stack[c0.stack.len() - 1 - j],
                    decreases size - k,
                {
                    let v = match context.pop() {
                        Ok(v) => v,
                        Err(e) => {
                            proof {
                                assert(c0.stack.len() - k == 0);
                                assert(c0.stack.len() < size);
                            }
                            return StepOutcome::Failed(e);
                        },
                    };
                    proof {
                        let n = c0.stack.len() - k;
                        assert(c0.stack.take(n).drop_last() =~= c0.stack.take(n - 1));
                        assert(c0.stack.take(n).last() == c0.stack[n - 1]);
                        crate::value::lemma_view_of_values_push(popped@, v);
                    }
                    popped.push(v);
                    k = k + 1;
                }
                let mut elems: Vec<Value> = Vec::new();
                let mut j: usize = 0;
                while j < size
                    invariant
                        j <= size,
                        size == popped@.len(),
                        (*context == ExecutionContext { stack: context.stack, ..*old(context) }),
                        old(context).memory.wf(),
                        old(context).pc < old(context).module.instructions@.len(),
                        prog == prog_of(old(context).module),
                        m0 == mgr_of(old(context).memory),
                        c0.exception is None,
                        instr@ == prog.instructions[c0.pc],
                        instr.opcode == OpCode::NewArray,
                        size == op_at(instr@, 0) as int,
                        c0 == old(context).state(),
                        size <= c0.stack.len(),
                        context.state().stack == c0.stack.take(c0.stack.len() - size),
                        forall|q: int| 0 <= q < size
                            ==> crate::value::view_of_values(popped@)[q]
                                == c0.stack[c0.stack.len() - 1 - q],
                        crate::value::view_of_values(elems@).len() == j,
                        elems@.len() == j,
                        forall|q: int| 0 <= q < j
                            ==> crate::value::view_of_values(elems@)[q]
                                == c0.stack[c0.stack.len() - size + q],
                    decreases size - j,
                {
                    let v = popped[size - 1 - j].clone();
                    proof {
                        crate::value::lemma_view_of_values_push(elems@, v);
                        crate::value::lemma_view_of_values_index(popped@, size - 1 - j);
                    }
                    elems.push(v);
                    j = j + 1;
                }
                proof {
                    assert(crate::value::view_of_values(elems@)
                        =~= c0.stack.skip(c0.stack.len() - size));
                }
                let pr = context.push(Value::Array(elems));
                context.increment_pc();
                StepOutcome::Continue
            },
            OpCode::GetElement => {
                let index_value = match context.pop() {
                    Ok(v) => v,
                    Err(e) => { return StepOutcome::Failed(e); },
                };
                let array_value = match context.pop() {
                    Ok(v) => v,
                    Err(e) => { return StepOutcome::Failed(e); },
                };
                let index: usize = match &index_value {
                    Value::Integer(i) => {
                        let wrapped: usize = #[verifier::truncate] (*i as usize);
                        if *i < 0 {
                            return StepOutcome::Failed(VMError::IndexOutOfBounds(wrapped));
                        }
                        wrapped
                    },
                    _ => {
                        return StepOutcome::Failed(VMError::TypeError(
                            "Array index must be an integer".to_owned()));
                    },
                };
                match &array_value {
                    Value::Array(array) => {
                        proof { crate::value::lemma_view_of_values_len(array@); }
                        if index >= array.len() {
                            return StepOutcome::Failed(VMError::IndexOutOfBounds(index));
                        }
                        let element = array[index].clone();
                        proof { crate::value::lemma_view_of_values_index(array@, index as int); }
                        let pr = context.push(element);
                        context.increment_pc();
                        StepOutcome::Continue
                    },
                    Value::String(string) => {
                        let chars = string_chars(string.as_str());
                        if index >= chars.len() {
                            return StepOutcome::Failed(VMError::IndexOutOfBounds(index));
                        }
                        let one = char_string(chars[index]);
                        let pr = context.push(Value::String(one));
                        context.increment_pc();
                        StepOutcome::Continue
                    },
                    _ => StepOutcome::Failed(VMError::TypeError(
                        "Cannot index into non-array value".to_owned())),
                }
            },
            OpCode::SetElement => {
                let value = match context.pop() {
                    Ok(v) => v,
                    Err(e) => { return StepOutcome::Failed(e); },
                };
                let index_value = match context.pop() {
                    Ok(v) => v,
                    Err(e) => { return StepOutcome::Failed(e); },
                };
                let array_value = match context.pop() {
                    Ok(v) => v,
                    Err(e) => { return StepOutcome::Failed(e); },
                };
                let index: usize = match &index_value {
                    Value::Integer(i) => {
                        let wrapped: usize = #[verifier::truncate] (*i as usize);
                        if *i < 0 {
                            return StepOutcome::Failed(VMError::IndexOutOfBounds(wrapped));
                        }
                        wrapped
                    },
                    _ => {
                        return StepOutcome::Failed(VMError::TypeError(
                            "Array index must be an integer".to_owned()));
                    },
                };
                match array_value {
                    Value::Array(mut array) => {
                        proof { crate::value::lemma_view_of_values_len(array@); }
                        if index >= array.len() {
                            return StepOutcome::Failed(VMError::IndexOutOfBounds(index));
                        }
                        let ghost pre = array@;
                        array.set(index, value);
                        proof {
                            let newv = crate::value::view_of_values(array@);
                            let prev = crate::value::view_of_values(pre);
                            crate::value::lemma_view_of_values_len(array@);
                            crate::value::lemma_view_of_values_len(pre);
                            assert forall|q: int| 0 <= q < newv.len()
                                implies #[trigger] newv[q] == prev.update(index as int,
                                    value_view(value))[q] by {
                                crate::value::lemma_view_of_values_index(array@, q);
                                crate::value::lemma_view_of_values_index(pre, q);
                            }
                            assert(newv =~= prev.update(index as int, value_view(value)));
                        }
                        let pr = context.push(Value::Array(array));
                        context.increment_pc();
                        StepOutcome::Continue
                    },
                    _ => StepOutcome::Failed(VMError::TypeError(
                        "Cannot set element of non-array value".to_owned())),
                }
            },
            OpCode::ArrayLength => {
                let value = match context.pop() {
                    Ok(v) => v,
                    Err(e) => { return StepOutcome::Failed(e); },
                };
                match &value {
                    Value::Array(array) => {
                        proof { crate::value::lemma_view_of_values_len(array@); }
                        let n: i64 = #[verifier::truncate] (array.len() as i64);
                        let pr = context.push(Value::Integer(n));
                        context.increment_pc();
                        StepOutcome::Continue
                    },
                    Value::String(string) => {
                        let bytes = string_bytes(string.as_str());
                        let n: i64 = #[verifier::truncate] (bytes.len() as i64);
                        let pr = context.push(Value::Integer(n));
                        context.increment_pc();
                        StepOutcome::Continue
                    },
                    _ => StepOutcome::Failed(VMError::TypeError(
                        "Cannot get length of non-array/string value".to_owned())),
                }
            },
            _ => {
                proof { assert(false); }
                StepOutcome::Failed(VMError::InvalidOperand)
            },
        }
}

/// Execute one iteration of the dispatch loop: route a pending exception,
/// or run the instruction under the program counter. The outcome is exactly
/// what `step_of` says of the starting state.
#[verifier::rlimit(100)]
#[verifier::spinoff_prover]
fn step(context: &mut ExecutionContext) -> (r: StepOutcome)
    requires
        old(context).memory.wf(),
        old(context).pc < old(context).module.instructions@.len(),
    ensures
        final(context).memory.wf(),
        final(context).module == old(context).module,
        final(context).stack_trace_enabled == old(context).stack_trace_enabled,
        match r {
            StepOutcome::Continue => step_of(prog_of(old(context).module), old(context).state(),
                mgr_of(old(context).memory))
                == StepResultV::Next(final(context).state(), mgr_of(final(context).memory)),
            StepOutcome::Halted(v) => step_of(prog_of(old(context).module), old(context).state(),
                mgr_of(old(context).memory)) == StepResultV::Halted(value_view(v))
                && mgr_of(final(context).memory) == mgr_of(old(context).memory)
                && final(context).state() == (ContextV {
                    stack: if old(context).state().stack.len() > 0 {
                        old(context).state().stack.drop_last()
                    } else {
                        old(context).state().stack
                    },
                    ..old(context).state()
                }),
            StepOutcome::Failed(e) => step_of(prog_of(old(context).module), old(context).state(),
                mgr_of(old(context).memory)) == StepResultV::Failed(e@)
                && mgr_of(final(context).memory) == mgr_of(old(context).memory),
        },
{
    let ghost prog = prog_of(old(context).module);
    let ghost c0 = old(context).state();
    let ghost m0 = mgr_of(old(context).memory);
    let pc = context.pc;
    let icount = context.module.instructions.len();

    if context.get_exception().is_some() {
        let handler_info: Option<(HandlerType, usize, usize)> = match context.find_handler(pc) {
            Some(h) => Some((h.handler_type, h.handler_pc, h.stack_depth)),
            None => None,
        };
        match handler_info {
            Some((handler_type, handler_pc, depth)) => {
                proof {
                    assert(c0.stack.take(c0.stack.len() as int) =~= c0.stack);
                }
                while context.stack_depth() > depth
                    invariant
                        (*context == ExecutionContext { stack: context.stack, ..*old(context) }),
                        old(context).memory.wf(),
                        context.state().stack.len() <= c0.stack.len(),
                        depth <= context.state().stack.len()
                            || context.state().stack.len() == c0.stack.len(),
                        context.state().stack == c0.stack.take(context.state().stack.len() as int),
                        c0 == old(context).state(),
                    decreases context.state().stack.len(),
                {
                    let popped = context.pop();
                    proof {
                        let n = context.state().stack.len() as int;
                        assert(c0.stack.take(n + 1).drop_last() =~= c0.stack.take(n));
                    }
                }
                if handler_type == HandlerType::Catch {
                    match context.take_exception() {
                        Some(exception) => {
                            let pr = context.push(exception);
                        },
                        None => {},
                    }
                }
                context.set_pc(handler_pc);
                proof {
                    let kept = if c0.stack.len() > depth {
                        c0.stack.take(depth as int)
                    } else {
                        c0.stack
                    };
                    assert(kept =~= c0.stack.take(if c0.stack.len() > depth {
                        depth as int
                    } else {
                        c0.stack.len() as int
                    }));
                }
                StepOutcome::Continue
            },
            None => {
                match context.take_exception() {
                    Some(exception) => {
                        let mut msg = "Unhandled exception: ".to_owned();
                        msg.append(exception.render().as_str());
                        StepOutcome::Failed(VMError::RuntimeError(msg))
                    },
                    None => {
                        proof { assert(false); }
                        StepOutcome::Failed(VMError::InvalidOperand)
                    },
                }
            },
        }
    } else {
        let instr = context.module.instructions[pc].clone();
        match instr.opcode {
            OpCode::Nop | OpCode::Halt | OpCode::Print | OpCode::Push | OpCode::Pop | OpCode::Dup | OpCode::Swap => step_basic(context, &instr),
            OpCode::Add | OpCode::Sub | OpCode::Mul | OpCode::Div | OpCode::Neg => step_arith(context, &instr),
            OpCode::BitAnd | OpCode::BitOr | OpCode::BitXor | OpCode::BitNot | OpCode::ShiftLeft | OpCode::ShiftRight | OpCode::RotateLeft | OpCode::RotateRight => step_bits(context, &instr),
            OpCode::And | OpCode::Or | OpCode::Not | OpCode::Eq | OpCode::Neq | OpCode::Lt | OpCode::Lte | OpCode::Gt | OpCode::Gte => step_logic(context, &instr),
            OpCode::Jump | OpCode::JumpIf | OpCode::JumpIfNot | OpCode::Call | OpCode::Return => step_control(context, &instr),
            OpCode::TryBlock | OpCode::CatchBlock | OpCode::FinallyBlock | OpCode::EndTry | OpCode::Throw | OpCode::Rethrow => step_try(context, &instr),
            OpCode::StoreLocal | OpCode::LoadLocal => step_locals(context, &instr),
            OpCode::CreateHeap | OpCode::SwitchHeap | OpCode::CollectHeap => step_heap(context, &instr),
            OpCode::NewArray | OpCode::GetElement | OpCode::SetElement | OpCode::ArrayLength => step_arrays(context, &instr),
        }
    }
}


/// One running-or-finished execution state.
pub ghost enum RunStateV {
    Running(ContextV, ManagerV),
    Halted(ValueV),
    Failed(VMErrorV),
}

/// One dispatch iteration from a running state: past the last instruction
/// the loop exits, returning the top of stack or null; otherwise the step
/// effect applies. Finished states stay as they are.
pub open spec fn step_total(prog: ProgV, s: RunStateV) -> RunStateV {
    match s {
        RunStateV::Running(c, m) => if c.pc >= prog.instructions.len() {
            RunStateV::Halted(if c.stack.len() > 0 { c.stack.last() } else { ValueV::Null })
        } else {
            match step_of(prog, c, m) {
                StepResultV::Next(c2, m2) => RunStateV::Running(c2, m2),
                StepResultV::Halted(v) => RunStateV::Halted(v),
                StepResultV::Failed(e) => RunStateV::Failed(e),
            }
        },
        done => done,
    }
}

/// The state after some number of dispatch iterations.
pub open spec fn run_n(prog: ProgV, s: RunStateV, n: nat) -> RunStateV
    decreases n,
{
    if n == 0 {
        s
    } else {
        step_total(prog, run_n(prog, s, (n - 1) as nat))
    }
}

/// The Virtual Machine that executes bytecode instructions.
pub struct VM {
    pub memory_manager: MemoryManager<Value>,
    pub modules: Vec<(String, BytecodeModule)>,
    pub stack_trace_enabled: bool,
}

impl VM {
    /// A VM holding the given memory manager and no modules.
    pub fn new(memory_manager: MemoryManager<Value>) -> (r: Self)
        ensures
            r.memory_manager == memory_manager,
            r.modules@.len() == 0,
            !r.stack_trace_enabled,
    {
        VM { memory_manager, modules: Vec::new(), stack_trace_enabled: false }
    }

    /// Load a bytecode module under its name, replacing any module already
    /// held under that name.
    pub fn load_module(&mut self, module: BytecodeModule)
        ensures
            final(self).memory_manager == old(self).memory_manager,
            final(self).stack_trace_enabled == old(self).stack_trace_enabled,
            exists|k: int| 0 <= k < final(self).modules@.len()
                && (#[trigger] final(self).modules@[k]).0@ == module.name@
                && final(self).modules@[k].1 == module
                && (forall|j: int| 0 <= j < k
                    ==> (#[trigger] final(self).modules@[j]).0@ != module.name@),
    {
        let name = module.name.clone();
        let mut i: usize = 0;
        while i < self.modules.len()
            invariant
                i <= self.modules@.len(),
                (*self == VM { modules: self.modules, ..*old(self) }),
                name@ == module.name@,
                forall|j: int| 0 <= j < i
                    ==> (#[trigger] self.modules@[j]).0@ != module.name@,
            decreases self.modules@.len() - i,
        {
            if self.modules[i].0 == name {
                self.modules.set(i, (name, module));
                proof {
                    assert(self.modules@[i as int].0@ == module.name@);
                }
                return;
            }
            i = i + 1;
        }
        self.modules.push((name, module));
        proof {
            assert(self.modules@[self.modules@.len() - 1].0@ == module.name@);
        }
    }

    /// Enable or disable stack tracing.
    pub fn set_stack_trace(&mut self, enabled: bool)
        ensures
            *final(self) == (VM { stack_trace_enabled: enabled, ..*old(self) }),
    {
        self.stack_trace_enabled = enabled;
    }

    /// Execute instructions in an execution context, until the program
    /// leaves the instruction sequence, halts, or fails. The result is what
    /// iterating the dispatch step from the starting state yields; a run
    /// longer than the step budget is cut off with a runtime error.
    pub fn execute(&self, context: &mut ExecutionContext) -> (r: VMResult<Value>)
        requires
            old(context).memory.wf(),
        ensures
            final(context).module == old(context).module,
            final(context).memory.wf(),
            match r {
                Result::Ok(v) => exists|n: nat| run_n(prog_of(old(context).module),
                    RunStateV::Running(old(context).state(), mgr_of(old(context).memory)), n)
                    == RunStateV::Halted(value_view(v)),
                Result::Err(e) => (exists|n: nat| run_n(prog_of(old(context).module),
                    RunStateV::Running(old(context).state(), mgr_of(old(context).memory)), n)
                    == RunStateV::Failed(e@)) || e@ == VMErrorV::RuntimeError(
                    "step budget exhausted"@),
            },
            exists|n: nat, s: ContextV| run_n(prog_of(old(context).module),
                RunStateV::Running(old(context).state(), mgr_of(old(context).memory)), n)
                == RunStateV::Running(s, mgr_of(final(context).memory)),
            r matches Result::Ok(v) ==> exists|n: nat, s: ContextV|
                run_n(prog_of(old(context).module),
                    RunStateV::Running(old(context).state(), mgr_of(old(context).memory)), n)
                    == RunStateV::Running(s, mgr_of(final(context).memory))
                && step_total(prog_of(old(context).module),
                    RunStateV::Running(s, mgr_of(final(context).memory)))
                    == RunStateV::Halted(value_view(v))
                && final(context).state() == (ContextV {
                    stack: if s.stack.len() > 0 { s.stack.drop_last() } else { s.stack },
                    ..s
                }),
    {
        let ghost prog = prog_of(old(context).module);
        let ghost start = RunStateV::Running(old(context).state(), mgr_of(old(context).memory));
        let mut fuel: u64 = u64::MAX;
        let ghost mut steps: nat = 0nat;
        while context.has_more_instructions()
            invariant
                context.module == old(context).module,
                context.memory.wf(),
                prog == prog_of(old(context).module),
                start == RunStateV::Running(old(context).state(), mgr_of(old(context).memory)),
                run_n(prog, start, steps)
                    == RunStateV::Running(context.state(), mgr_of(context.memory)),
            decreases fuel,
        {
            if fuel == 0 {
                return Err(VMError::RuntimeError("step budget exhausted".to_owned()));
            }
            fuel = fuel - 1;
            if context.stack_trace_enabled {
                let mut line = "Executing instruction at pc ".to_owned();
                line.append(crate::decimal::usize_string(context.pc).as_str());
                print_line(line.as_str());
            }
            let ghost centry = context.state();
            let ghost mentry = mgr_of(context.memory);
            let outcome = step(context);
            proof {
                steps = steps + 1;
                assert(run_n(prog, start, steps)
                    == step_total(prog, run_n(prog, start, (steps - 1) as nat)));
            }
            match outcome {
                StepOutcome::Continue => {},
                StepOutcome::Halted(v) => {
                    proof {
                        assert(run_n(prog, start, (steps - 1) as nat)
                            == RunStateV::Running(centry, mentry));
                        assert(step_total(prog, RunStateV::Running(centry, mentry))
                            == RunStateV::Halted(value_view(v)));
                    }
                    return Ok(v);
                },
                StepOutcome::Failed(e) => {
                    return Err(e);
                },
            }
        }
        let ghost cexit = context.state();
        let ghost mexit = mgr_of(context.memory);
        proof {
            steps = steps + 1;
            assert(run_n(prog, start, steps)
                == step_total(prog, run_n(prog, start, (steps - 1) as nat)));
            assert(run_n(prog, start, (steps - 1) as nat)
                == RunStateV::Running(cexit, mexit));
        }
        match context.pop() {
            Ok(v) => {
                proof {
                    assert(step_total(prog, RunStateV::Running(cexit, mexit))
                        == RunStateV::Halted(value_view(v)));
                }
                Ok(v)
            },
            Err(_) => {
                proof {
                    assert(step_total(prog, RunStateV::Running(cexit, mexit))
                        == RunStateV::Halted(value_view(Value::Null)));
                }
                Ok(Value::Null)
            },
        }
    }

    /// The index of the first loaded module with the given name.
    fn find_module(&self, module_name: &str) -> (r: Option<usize>)
        ensures
            match r {
                Option::Some(i) => i < self.modules@.len()
                    && self.modules@[i as int].0@ == module_name@
                    && (forall|j: int| 0 <= j < i
                        ==> (#[trigger] self.modules@[j]).0@ != module_name@),
                Option::None => forall|j: int| 0 <= j < self.modules@.len()
                    ==> (#[trigger] self.modules@[j]).0@ != module_name@,
            },
    {
        let mut i: usize = 0;
        while i < self.modules.len()
            invariant
                i <= self.modules@.len(),
                forall|j: int| 0 <= j < i
                    ==> (#[trigger] self.modules@[j]).0@ != module_name@,
            decreases self.modules@.len() - i,
        {
            if str_eq(self.modules[i].0.as_str(), module_name) {
                return Some(i);
            }
            i = i + 1;
        }
        None
    }

    /// Execute a loaded module by name: build a fresh context over the VM's
    /// memory manager and run it from the start. An unknown name is a
    /// runtime error that leaves the manager untouched; a known name runs
    /// the first module so named, the result is what iterating the dispatch
    /// step from the fresh state yields, and the manager comes back in the
    /// state some prefix of that run reaches.
    pub fn execute_module(&mut self, module_name: &str) -> (r: VMResult<Value>)
        requires
            old(self).memory_manager.wf(),
        ensures
            final(self).memory_manager.wf(),
            final(self).modules == old(self).modules,
            final(self).stack_trace_enabled == old(self).stack_trace_enabled,
            (forall|j: int| 0 <= j < old(self).modules@.len()
                ==> (#[trigger] old(self).modules@[j]).0@ != module_name@)
                ==> (r matches Result::Err(e)
                    && e@ == VMErrorV::RuntimeError(
                        "Module '"@ + module_name@ + "' not found"@)
                    && *final(self) == *old(self)),
            (exists|j: int| 0 <= j < old(self).modules@.len()
                && (#[trigger] old(self).modules@[j]).0@ == module_name@)
                ==> exists|k: int| 0 <= k < old(self).modules@.len()
                    && (#[trigger] old(self).modules@[k]).0@ == module_name@
                    && (forall|j: int| 0 <= j < k
                        ==> (#[trigger] old(self).modules@[j]).0@ != module_name@)
                    && (match r {
                        Result::Ok(v) => exists|n: nat| run_n(
                            prog_of(old(self).modules@[k].1),
                            RunStateV::Running(init_context_v(),
                                mgr_of(old(self).memory_manager)), n)
                            == RunStateV::Halted(value_view(v)),
                        Result::Err(e) => (exists|n: nat| run_n(
                            prog_of(old(self).modules@[k].1),
                            RunStateV::Running(init_context_v(),
                                mgr_of(old(self).memory_manager)), n)
                            == RunStateV::Failed(e@))
                            || e@ == VMErrorV::RuntimeError("step budget exhausted"@),
                    })
                    && exists|n: nat, s: ContextV| run_n(
                        prog_of(old(self).modules@[k].1),
                        RunStateV::Running(init_context_v(),
                            mgr_of(old(self).memory_manager)), n)
                        == RunStateV::Running(s, mgr_of(final(self).memory_manager)),
    {
        let found = self.find_module(module_name);
        let index = match found {
            Some(i) => i,
            None => {
                let mut msg = "Module '".to_owned();
                msg.append(module_name);
                msg.append("' not found");
                proof {
                    reveal_strlit("Module '");
                    reveal_strlit("' not found");
                }
                return Err(VMError::RuntimeError(msg));
            },
        };
        let module = self.modules[index].1.clone();
        proof {
            assert(prog_of(module) == prog_of(self.modules@[index as int].1));
        }
        let mut manager = MemoryManager::new();
        core::mem::swap(&mut manager, &mut self.memory_manager);
        let mut context = ExecutionContext::new(module, manager);
        context.set_stack_trace(self.stack_trace_enabled);
        if self.stack_trace_enabled {
            print_line("Starting execution with stack tracing enabled");
        }
        proof {
            assert(context.state() == init_context_v());
        }
        let result = self.execute(&mut context);
        core::mem::swap(&mut context.memory, &mut self.memory_manager);
        proof {
            let kk = index as int;
            assert(0 <= kk < old(self).modules@.len()
                && old(self).modules@[kk].0@ == module_name@
                && (forall|j: int| 0 <= j < kk
                    ==> (#[trigger] old(self).modules@[j]).0@ != module_name@)
                && (match result {
                    Result::Ok(v) => exists|n: nat| run_n(
                        prog_of(old(self).modules@[kk].1),
                        RunStateV::Running(init_context_v(),
                            mgr_of(old(self).memory_manager)), n)
                        == RunStateV::Halted(value_view(v)),
                    Result::Err(e) => (exists|n: nat| run_n(
                        prog_of(old(self).modules@[kk].1),
                        RunStateV::Running(init_context_v(),
                            mgr_of(old(self).memory_manager)), n)
                        == RunStateV::Failed(e@))
                        || e@ == VMErrorV::RuntimeError("step budget exhausted"@),
                })
                && (exists|n: nat, s: ContextV| run_n(
                    prog_of(old(self).modules@[kk].1),
                    RunStateV::Running(init_context_v(),
                        mgr_of(old(self).memory_manager)), n)
                    == RunStateV::Running(s, mgr_of(self.memory_manager))));
        }
        result
    }
}

/// For integers, the interpreter's addition, subtraction and multiplication
/// agree with two's-complement 64-bit arithmetic; on inputs without
/// overflow that is exact integer arithmetic.
pub proof fn lemma_arithmetic_exact(prog: ProgV, c: ContextV, m: ManagerV, i1: i64, i2: i64)
    requires
        0 <= c.pc < prog.instructions.len(),
        c.exception is None,
        c.stack.len() >= 2,
        c.stack[c.stack.len() - 2] == ValueV::Integer(i1),
        c.stack[c.stack.len() - 1] == ValueV::Integer(i2),
    ensures
        prog.instructions[c.pc].opcode == OpCode::Add && i64::MIN <= i1 + i2 <= i64::MAX
            ==> step_of(prog, c, m) == StepResultV::Next(ContextV {
                pc: c.pc + 1,
                stack: c.stack.drop_last().drop_last().push(ValueV::Integer((i1 + i2) as i64)),
                ..c
            }, m),
        prog.instructions[c.pc].opcode == OpCode::Sub && i64::MIN <= i1 - i2 <= i64::MAX
            ==> step_of(prog, c, m) == StepResultV::Next(ContextV {
                pc: c.pc + 1,
                stack: c.stack.drop_last().drop_last().push(ValueV::Integer((i1 - i2) as i64)),
                ..c
            }, m),
        prog.instructions[c.pc].opcode == OpCode::Mul && i64::MIN <= i1 * i2 <= i64::MAX
            ==> step_of(prog, c, m) == StepResultV::Next(ContextV {
                pc: c.pc + 1,
                stack: c.stack.drop_last().drop_last().push(ValueV::Integer((i1 * i2) as i64)),
                ..c
            }, m),
{
    assert(c.stack.drop_last().last() == ValueV::Integer(i1));
    assert(c.stack.last() == ValueV::Integer(i2));
    if i64::MIN <= i1 * i2 <= i64::MAX {
        assert(vstd::wrapping::i64_specs::wrapping_mul(i1, i2) == (i1 * i2) as i64) by {
            vstd::arithmetic::div_mod::lemma_small_mod((i1 * i2 - i64::MIN) as nat,
                0x1_0000_0000_0000_0000nat);
            assert(vstd::wrapping::i64_specs::signed_crop(i1 * i2) == (i1 * i2) as i64);
        }
    }
}

/// Division pushes the remainder and then the quotient, quotient on top,
/// and refuses a zero divisor.
pub proof fn lemma_division_exact(prog: ProgV, c: ContextV, m: ManagerV, i1: i64, i2: i64)
    requires
        0 <= c.pc < prog.instructions.len(),
        prog.instructions[c.pc].opcode == OpCode::Div,
        c.exception is None,
        c.stack.len() >= 2,
        c.stack[c.stack.len() - 2] == ValueV::Integer(i1),
        c.stack[c.stack.len() - 1] == ValueV::Integer(i2),
    ensures
        i2 == 0 ==> step_of(prog, c, m) == StepResultV::Failed(VMErrorV::DivisionByZero),
        i2 != 0 && !(i1 == i64::MIN && i2 == -1) ==> step_of(prog, c, m)
            == StepResultV::Next(ContextV {
                pc: c.pc + 1,
                stack: c.stack.drop_last().drop_last().push(ValueV::Integer(rem_trunc(i1, i2)))
                    .push(ValueV::Integer(div_trunc(i1, i2))),
                ..c
            }, m),
{
    assert(c.stack.drop_last().last() == ValueV::Integer(i1));
    assert(c.stack.last() == ValueV::Integer(i2));
}

/// After a throw, the next instruction executed is the handler counter of
/// the topmost frame whose protected region covers the throwing counter;
/// the operand stack is cut to that frame's captured depth, and a catch
/// frame additionally receives the exception on the stack.
pub proof fn lemma_exception_propagation(prog: ProgV, c: ContextV, m: ManagerV, exc: ValueV, h: ExceptionHandler)
    requires
        0 <= c.pc < prog.instructions.len(),
        c.exception == Option::Some(exc),
        spec_find_handler(c.handlers, c.pc) == Option::Some(h),
    ensures
        c.pc < h.end_pc || exists|k: int| 0 <= k < c.handlers.len()
            && c.handlers[k] == h,
        step_of(prog, c, m) == StepResultV::Next(ContextV {
            pc: h.handler_pc as int,
            stack: ({
                let kept = if c.stack.len() > h.stack_depth {
                    c.stack.take(h.stack_depth as int)
                } else {
                    c.stack
                };
                if h.handler_type == HandlerType::Catch {
                    kept.push(exc)
                } else {
                    kept
                }
            }),
            exception: if h.handler_type == HandlerType::Catch {
                Option::None
            } else {
                c.exception
            },
            ..c
        }, m),
        h.handler_type == HandlerType::Catch ==> (step_of(prog, c, m) matches StepResultV::Next(c2, _)
            && c2.stack.len() == (if c.stack.len() > h.stack_depth {
                h.stack_depth as int
            } else {
                c.stack.len() as int
            }) + 1
            && c2.stack.last() == exc),
        h.handler_type == HandlerType::Finally ==> (step_of(prog, c, m) matches StepResultV::Next(c2, _)
            && c2.stack.len() == (if c.stack.len() > h.stack_depth {
                h.stack_depth as int
            } else {
                c.stack.len() as int
            })),
    decreases c.handlers.len(),
{
    lemma_find_handler_member(c.handlers, c.pc as int, h);
}

/// A found handler frame is a member of the handler stack whose region
/// covers the counter.
proof fn lemma_find_handler_member(handlers: Seq<ExceptionHandler>, pc: int, h: ExceptionHandler)
    requires
        spec_find_handler(handlers, pc) == Option::Some(h),
    ensures
        pc < h.end_pc,
        exists|k: int| 0 <= k < handlers.len() && handlers[k] == h,
    decreases handlers,
{
    if handlers.len() > 0 {
        if pc < handlers.last().end_pc {
            assert(handlers[handlers.len() - 1] == h);
        } else {
            lemma_find_handler_member(handlers.drop_last(), pc, h);
            let k = choose|k: int| 0 <= k < handlers.drop_last().len()
                && handlers.drop_last()[k] == h;
            assert(handlers[k] == h);
        }
    }
}

/// When no frame covers the throwing counter, execution terminates with an
/// unhandled-exception error that renders the exception.
pub proof fn lemma_unhandled_exception(prog: ProgV, c: ContextV, m: ManagerV, exc: ValueV)
    requires
        0 <= c.pc < prog.instructions.len(),
        c.exception == Option::Some(exc),
        spec_find_handler(c.handlers, c.pc) is None,
    ensures
        step_of(prog, c, m) == StepResultV::Failed(VMErrorV::RuntimeError(
            "Unhandled exception: "@ + render_of(exc))),
        step_total(prog, RunStateV::Running(c, m)) == RunStateV::Failed(VMErrorV::RuntimeError(
            "Unhandled exception: "@ + render_of(exc))),
{
}

} // verus!



