//! Per-invocation execution state: program counter, operand stack, local
//! slots, exception-handler stack and the pending exception, together with
//! the VM error domain.

use vstd::prelude::*;
use vstd::string::StringExecFns;
use vstd::pervasive::VecAdditionalExecFns;
use crate::bytecode::{BytecodeModule, Constant, ConstantV};
use crate::decimal::{u64_string, usize_string};
use crate::memory::MemoryManager;
use crate::value::{Value, ValueV, value_view, view_of_values, lemma_view_of_values_len,
    lemma_view_of_values_index};

verus! {

/// Error type for VM operations.
#[derive(Debug)]
pub enum VMError {
    StackUnderflow,
    InvalidProgramCounter(usize),
    InvalidConstantIndex(u32),
    InvalidLocalIndex(u32),
    InvalidOperand,
    TypeError(String),
    IndexOutOfBounds(usize),
    ArithmeticError(String),
    DivisionByZero,
    InvalidOperation(String),
    RuntimeError(String),
    MemoryError(String),
}

/// The mathematical model of a VM error.
pub ghost enum VMErrorV {
    StackUnderflow,
    InvalidProgramCounter(int),
    InvalidConstantIndex(u32),
    InvalidLocalIndex(u32),
    InvalidOperand,
    TypeError(Seq<char>),
    IndexOutOfBounds(int),
    ArithmeticError(Seq<char>),
    DivisionByZero,
    InvalidOperation(Seq<char>),
    RuntimeError(Seq<char>),
    MemoryError(Seq<char>),
}

impl View for VMError {
    type V = VMErrorV;

    open spec fn view(&self) -> VMErrorV {
        match self {
            VMError::StackUnderflow => VMErrorV::StackUnderflow,
            VMError::InvalidProgramCounter(pc) => VMErrorV::InvalidProgramCounter(*pc as int),
            VMError::InvalidConstantIndex(i) => VMErrorV::InvalidConstantIndex(*i),
            VMError::InvalidLocalIndex(i) => VMErrorV::InvalidLocalIndex(*i),
            VMError::InvalidOperand => VMErrorV::InvalidOperand,
            VMError::TypeError(s) => VMErrorV::TypeError(s@),
            VMError::IndexOutOfBounds(i) => VMErrorV::IndexOutOfBounds(*i as int),
            VMError::ArithmeticError(s) => VMErrorV::ArithmeticError(s@),
            VMError::DivisionByZero => VMErrorV::DivisionByZero,
            VMError::InvalidOperation(s) => VMErrorV::InvalidOperation(s@),
            VMError::RuntimeError(s) => VMErrorV::RuntimeError(s@),
            VMError::MemoryError(s) => VMErrorV::MemoryError(s@),
        }
    }
}

impl VMError {
    /// The message the error carries.
    pub fn describe(&self) -> String {
        match self {
            VMError::StackUnderflow => "Stack underflow".to_owned(),
            VMError::InvalidProgramCounter(pc) => {
                let mut out = "Invalid program counter: ".to_owned();
                out.append(usize_string(*pc).as_str());
                out
            },
            VMError::InvalidConstantIndex(i) => {
                let mut out = "Invalid constant index: ".to_owned();
                out.append(u64_string(*i as u64).as_str());
                out
            },
            VMError::InvalidLocalIndex(i) => {
                let mut out = "Invalid local variable index: ".to_owned();
                out.append(u64_string(*i as u64).as_str());
                out
            },
            VMError::InvalidOperand => "Invalid operand".to_owned(),
            VMError::TypeError(s) => {
                let mut out = "Type error: ".to_owned();
                out.append(s.as_str());
                out
            },
            VMError::IndexOutOfBounds(i) => {
                let mut out = "Index out of bounds: ".to_owned();
                out.append(usize_string(*i).as_str());
                out
            },
            VMError::ArithmeticError(s) => {
                let mut out = "Arithmetic error: ".to_owned();
                out.append(s.as_str());
                out
            },
            VMError::DivisionByZero => "Division by zero".to_owned(),
            VMError::InvalidOperation(s) => {
                let mut out = "Invalid operation: ".to_owned();
                out.append(s.as_str());
                out
            },
            VMError::RuntimeError(s) => {
                let mut out = "Runtime error: ".to_owned();
                out.append(s.as_str());
                out
            },
            VMError::MemoryError(s) => {
                let mut out = "Memory error: ".to_owned();
                out.append(s.as_str());
                out
            },
        }
    }

    /// Wrap a memory error the way the conversion from memory errors did.
    pub fn from_memory_error(e: crate::memory::MemoryError) -> Self {
        VMError::MemoryError(e.describe())
    }
}

/// Result type for VM operations.
pub type VMResult<T> = Result<T, VMError>;

/// The type of an exception handler frame.
#[derive(Debug, Clone, Copy, PartialEq, Eq, Structural, Hash)]
pub enum HandlerType {
    /// A try-catch handler.
    Catch,
    /// A finally handler.
    Finally,
}

/// An exception handler frame.
#[derive(Debug, Clone, Copy, PartialEq, Eq, Structural)]
pub struct ExceptionHandler {
    /// The type of handler.
    pub handler_type: HandlerType,
    /// Program counter where the handler starts.
    pub handler_pc: usize,
    /// Program counter where the protected region ends.
    pub end_pc: usize,
    /// The operand-stack depth captured when the try block was entered.
    pub stack_depth: usize,
}

/// The handler that dispatch selects for a program counter: the newest frame
/// whose protected region still covers the counter.
pub open spec fn spec_find_handler(handlers: Seq<ExceptionHandler>, pc: int) -> Option<ExceptionHandler>
    decreases handlers,
{
    if handlers.len() == 0 {
        Option::None
    } else if pc < handlers.last().end_pc {
        Option::Some(handlers.last())
    } else {
        spec_find_handler(handlers.drop_last(), pc)
    }
}

/// The execution context for VM instructions.
pub struct ExecutionContext {
    pub module: BytecodeModule,
    pub memory: MemoryManager<Value>,
    pub pc: usize,
    pub stack: Vec<Value>,
    pub locals: Vec<Value>,
    pub stack_trace_enabled: bool,
    /// Stack of active exception handlers.
    pub exception_handlers: Vec<ExceptionHandler>,
    /// Current active exception, if any.
    pub current_exception: Option<Value>,
}

/// The mathematical model of the mutable execution state.
pub ghost struct ContextV {
    pub pc: int,
    pub stack: Seq<ValueV>,
    pub locals: Seq<ValueV>,
    pub handlers: Seq<ExceptionHandler>,
    pub exception: Option<ValueV>,
}

impl ExecutionContext {
    /// The model of this context's mutable state.
    pub open spec fn state(self) -> ContextV {
        ContextV {
            pc: self.pc as int,
            stack: view_of_values(self.stack@),
            locals: view_of_values(self.locals@),
            handlers: self.exception_handlers@,
            exception: match self.current_exception {
                Option::Some(v) => Option::Some(value_view(v)),
                Option::None => Option::None,
            },
        }
    }

    /// A fresh context at the start of the module, with an empty stack, no
    /// locals, no handlers and no pending exception.
    pub fn new(module: BytecodeModule, memory: MemoryManager<Value>) -> (r: Self)
        ensures
            r.module == module,
            r.memory == memory,
            r.state() == (ContextV {
                pc: 0,
                stack: Seq::<ValueV>::empty(),
                locals: Seq::<ValueV>::empty(),
                handlers: Seq::<ExceptionHandler>::empty(),
                exception: Option::<ValueV>::None,
            }),
            !r.stack_trace_enabled,
    {
        let r = ExecutionContext {
            module,
            memory,
            pc: 0,
            stack: Vec::new(),
            locals: Vec::new(),
            stack_trace_enabled: false,
            exception_handlers: Vec::new(),
            current_exception: None,
        };
        proof {
            assert(view_of_values(r.stack@) =~= Seq::<ValueV>::empty());
            assert(view_of_values(r.locals@) =~= Seq::<ValueV>::empty());
            assert(r.exception_handlers@ =~= Seq::<ExceptionHandler>::empty());
        }
        r
    }

    /// The loaded bytecode module.
    pub fn module(&self) -> (r: &BytecodeModule)
        ensures
            r == &self.module,
    {
        &self.module
    }

    /// The current program counter.
    pub fn pc(&self) -> (r: usize)
        ensures
            r == self.pc,
    {
        self.pc
    }

    /// Set the program counter.
    pub fn set_pc(&mut self, pc: usize)
        ensures
            *final(self) == (ExecutionContext { pc, ..*old(self) }),
    {
        self.pc = pc;
    }

    /// Advance the program counter by one instruction.
    pub fn increment_pc(&mut self)
        requires
            old(self).pc < usize::MAX,
        ensures
            *final(self) == (ExecutionContext { pc: (old(self).pc + 1) as usize, ..*old(self) }),
    {
        self.pc = self.pc + 1;
    }

    /// Whether the program counter still points at an instruction.
    pub fn has_more_instructions(&self) -> (r: bool)
        ensures
            r == (self.pc < self.module.instructions@.len()),
    {
        self.pc < self.module.instructions.len()
    }

    /// Push a value onto the operand stack.
    pub fn push(&mut self, value: Value) -> (r: VMResult<()>)
        ensures
            r is Ok,
            *final(self) == (ExecutionContext { stack: final(self).stack, ..*old(self) }),
            final(self).state().stack == old(self).state().stack.push(value_view(value)),
    {
        proof {
            crate::value::lemma_view_of_values_push(self.stack@, value);
        }
        self.stack.push(value);
        Ok(())
    }

    /// Pop a value from the operand stack; an empty stack is an underflow.
    pub fn pop(&mut self) -> (r: VMResult<Value>)
        ensures
            *final(self) == (ExecutionContext { stack: final(self).stack, ..*old(self) }),
            match r {
                Result::Ok(v) => old(self).state().stack.len() > 0
                    && value_view(v) == old(self).state().stack.last()
                    && final(self).state().stack == old(self).state().stack.drop_last(),
                Result::Err(e) => old(self).state().stack.len() == 0
                    && final(self).state() == old(self).state()
                    && e@ == VMErrorV::StackUnderflow,
            },
    {
        proof {
            lemma_view_of_values_len(self.stack@);
        }
        match self.stack.pop() {
            Some(value) => {
                proof {
                    assert(old(self).stack@ == self.stack@.push(value));
                    crate::value::lemma_view_of_values_push(self.stack@, value);
                    assert(old(self).state().stack.drop_last() =~= view_of_values(self.stack@));
                }
                Ok(value)
            },
            None => Err(VMError::StackUnderflow),
        }
    }

    /// Look at the top of the operand stack without removing it.
    pub fn peek(&self) -> (r: VMResult<&Value>)
        ensures
            match r {
                Result::Ok(v) => self.state().stack.len() > 0
                    && value_view(*v) == self.state().stack.last(),
                Result::Err(e) => self.state().stack.len() == 0
                    && e@ == VMErrorV::StackUnderflow,
            },
    {
        proof {
            lemma_view_of_values_len(self.stack@);
        }
        if self.stack.len() == 0 {
            Err(VMError::StackUnderflow)
        } else {
            let v = &self.stack[self.stack.len() - 1];
            proof {
                lemma_view_of_values_index(self.stack@, self.stack@.len() - 1);
            }
            Ok(v)
        }
    }

    /// Store a value in a local slot, extending the slots with nulls when
    /// the index is past the end.
    pub fn store_local(&mut self, index: usize, value: Value) -> (r: VMResult<()>)
        requires
            index < usize::MAX,
        ensures
            r is Ok,
            *final(self) == (ExecutionContext { locals: final(self).locals, ..*old(self) }),
            final(self).state().locals == spec_store_local(old(self).state().locals, index as int,
                value_view(value)),
    {
        proof {
            assert(view_of_values(self.locals@) =~= view_of_values(self.locals@)
                + Seq::new(0nat, |i: int| ValueV::Null));
        }
        while self.locals.len() <= index
            invariant
                index < usize::MAX,
                (*self == ExecutionContext { locals: self.locals, ..*old(self) }),
                old(self).locals@.len() <= self.locals@.len(),
                old(self).locals@.len() > index ==> self.locals@ == old(self).locals@,
                old(self).locals@.len() <= index ==> self.locals@.len() <= index + 1,
                view_of_values(self.locals@) == view_of_values(old(self).locals@)
                    + Seq::new((self.locals@.len() - old(self).locals@.len()) as nat,
                        |i: int| ValueV::Null),
            decreases index + 1 - self.locals@.len(),
        {
            proof {
                crate::value::lemma_view_of_values_push(self.locals@, Value::Null);
            }
            self.locals.push(Value::Null);
            proof {
                assert(view_of_values(self.locals@) =~= view_of_values(old(self).locals@)
                    + Seq::new((self.locals@.len() - old(self).locals@.len()) as nat,
                        |i: int| ValueV::Null));
            }
        }
        let ghost pre = self.locals@;
        self.locals.set(index, value);
        proof {
            let oldv = view_of_values(old(self).locals@);
            let prev = view_of_values(pre);
            let newv = view_of_values(self.locals@);
            lemma_view_of_values_len(old(self).locals@);
            lemma_view_of_values_len(pre);
            lemma_view_of_values_len(self.locals@);
            assert(self.locals@ == pre.update(index as int, value));
            assert forall|j: int| 0 <= j < newv.len()
                implies #[trigger] newv[j] == (if j == index { value_view(value) } else { prev[j] }) by {
                lemma_view_of_values_index(self.locals@, j);
                lemma_view_of_values_index(pre, j);
            }
            let extended = if oldv.len() > index {
                oldv
            } else {
                oldv + Seq::new((index + 1 - oldv.len()) as nat, |i: int| ValueV::Null)
            };
            assert(prev =~= extended);
            assert(newv =~= extended.update(index as int, value_view(value)));
        }
        Ok(())
    }

    /// Load a local slot; a slot never extended is an invalid-index error.
    pub fn load_local(&self, index: usize) -> (r: VMResult<Value>)
        ensures
            match r {
                Result::Ok(v) => index < self.state().locals.len()
                    && value_view(v) == self.state().locals[index as int],
                Result::Err(e) => index >= self.state().locals.len()
                    && e@ == VMErrorV::InvalidLocalIndex(crop_u32(index as int)),
            },
    {
        proof {
            lemma_view_of_values_len(self.locals@);
        }
        if index >= self.locals.len() {
            let as32: u32 = ((index as u64) % 0x1_0000_0000u64) as u32;
            return Err(VMError::InvalidLocalIndex(as32));
        }
        let v = self.locals[index].clone();
        proof {
            lemma_view_of_values_index(self.locals@, index as int);
        }
        Ok(v)
    }

    /// The value a constant-pool entry denotes.
    pub fn get_constant(&self, index: u32) -> (r: VMResult<Value>)
        ensures
            match r {
                Result::Ok(v) => index < self.module.constants@.len()
                    && value_view(v) == value_of_constant(self.module.constants@[index as int]@),
                Result::Err(e) => index >= self.module.constants@.len()
                    && e@ == VMErrorV::InvalidConstantIndex(index),
            },
    {
        let idx = index as usize;
        if idx >= self.module.constants.len() {
            return Err(VMError::InvalidConstantIndex(index));
        }
        let constant = &self.module.constants[idx];
        Ok(match constant {
            Constant::Null => Value::Null,
            Constant::Integer(i) => Value::Integer(*i),
            Constant::Float(f) => Value::Float(*f),
            Constant::String(s) => Value::String(s.clone()),
            Constant::Boolean(b) => Value::Boolean(*b),
        })
    }

    /// Enable or disable stack trace debugging.
    pub fn set_stack_trace(&mut self, enabled: bool)
        ensures
            *final(self) == (ExecutionContext { stack_trace_enabled: enabled, ..*old(self) }),
    {
        self.stack_trace_enabled = enabled;
    }

    /// The current operand-stack depth.
    pub fn stack_depth(&self) -> (r: usize)
        ensures
            r == self.state().stack.len(),
    {
        proof {
            lemma_view_of_values_len(self.stack@);
        }
        self.stack.len()
    }

    /// Push an exception handler frame.
    pub fn push_exception_handler(&mut self, handler: ExceptionHandler)
        ensures
            *final(self) == (ExecutionContext {
                exception_handlers: final(self).exception_handlers, ..*old(self) }),
            final(self).exception_handlers@ == old(self).exception_handlers@.push(handler),
    {
        self.exception_handlers.push(handler);
    }

    /// Pop an exception handler frame, if any.
    pub fn pop_exception_handler(&mut self) -> (r: Option<ExceptionHandler>)
        ensures
            *final(self) == (ExecutionContext {
                exception_handlers: final(self).exception_handlers, ..*old(self) }),
            match r {
                Option::Some(h) => old(self).exception_handlers@.len() > 0
                    && h == old(self).exception_handlers@.last()
                    && final(self).exception_handlers@ == old(self).exception_handlers@.drop_last(),
                Option::None => old(self).exception_handlers@.len() == 0
                    && final(self).exception_handlers@ == old(self).exception_handlers@,
            },
    {
        self.exception_handlers.pop()
    }

    /// The topmost exception handler frame, if any.
    pub fn current_exception_handler(&self) -> (r: Option<&ExceptionHandler>)
        ensures
            match r {
                Option::Some(h) => self.exception_handlers@.len() > 0
                    && *h == self.exception_handlers@.last(),
                Option::None => self.exception_handlers@.len() == 0,
            },
    {
        if self.exception_handlers.len() == 0 {
            None
        } else {
            Some(&self.exception_handlers[self.exception_handlers.len() - 1])
        }
    }

    /// Record a pending exception.
    pub fn set_exception(&mut self, exception: Value)
        ensures
            *final(self) == (ExecutionContext {
                current_exception: Option::Some(exception), ..*old(self) }),
    {
        self.current_exception = Some(exception);
    }

    /// The pending exception, if any.
    pub fn get_exception(&self) -> (r: Option<&Value>)
        ensures
            match r {
                Option::Some(v) => self.current_exception == Option::Some(*v),
                Option::None => self.current_exception is None,
            },
    {
        match &self.current_exception {
            Some(v) => Some(v),
            None => None,
        }
    }

    /// Take the pending exception, clearing it from the context.
    pub fn take_exception(&mut self) -> (r: Option<Value>)
        ensures
            *final(self) == (ExecutionContext { current_exception: Option::None, ..*old(self) }),
            r == old(self).current_exception,
    {
        let mut taken: Option<Value> = None;
        core::mem::swap(&mut taken, &mut self.current_exception);
        taken
    }

    /// Find the handler for the given program counter: the newest frame
    /// whose protected region covers it.
    pub fn find_handler(&self, pc: usize) -> (r: Option<&ExceptionHandler>)
        ensures
            match r {
                Option::Some(h) => spec_find_handler(self.exception_handlers@, pc as int)
                    == Option::Some(*h),
                Option::None => spec_find_handler(self.exception_handlers@, pc as int) is None,
            },
    {
        let mut i: usize = self.exception_handlers.len();
        proof {
            assert(self.exception_handlers@.take(self.exception_handlers@.len() as int)
                =~= self.exception_handlers@);
        }
        while i > 0
            invariant
                i <= self.exception_handlers@.len(),
                spec_find_handler(self.exception_handlers@, pc as int)
                    == spec_find_handler(self.exception_handlers@.take(i as int), pc as int),
            decreases i,
        {
            i = i - 1;
            let h = &self.exception_handlers[i];
            proof {
                assert(self.exception_handlers@.take(i as int + 1).last()
                    == self.exception_handlers@[i as int]);
                assert(self.exception_handlers@.take(i as int + 1).drop_last()
                    =~= self.exception_handlers@.take(i as int));
            }
            if pc < h.end_pc {
                return Some(h);
            }
        }
        proof {
            assert(self.exception_handlers@.take(0) =~= Seq::<ExceptionHandler>::empty());
        }
        None
    }
}

/// A local-slot store: the slots extended with nulls up to the index, then
/// the value written at the index.
pub open spec fn spec_store_local(locals: Seq<ValueV>, index: int, value: ValueV) -> Seq<ValueV> {
    let extended = if locals.len() > index {
        locals
    } else {
        locals + Seq::new((index + 1 - locals.len()) as nat, |i: int| ValueV::Null)
    };
    extended.update(index, value)
}

/// A machine integer truncated to its low 32 bits.
pub open spec fn crop_u32(x: int) -> u32 {
    (x % 0x1_0000_0000) as u32
}

/// The runtime value a constant denotes.
pub open spec fn value_of_constant(c: ConstantV) -> ValueV {
    match c {
        ConstantV::Null => ValueV::Null,
        ConstantV::Integer(i) => ValueV::Integer(i),
        ConstantV::Float(b) => ValueV::Float(b),
        ConstantV::String(s) => ValueV::String(s),
        ConstantV::Boolean(b) => ValueV::Boolean(b),
    }
}

} // verus!
