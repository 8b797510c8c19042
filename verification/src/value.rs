//! The runtime value domain: a tagged union of null, integer, float (carried
//! as its IEEE bit pattern), boolean, string, shared array, object reference,
//! heap id, return address and exception, together with the truthiness and
//! conversion rules the interpreter relies on.

use vstd::prelude::*;
use vstd::string::StringExecFns;
use crate::decimal::{u64_digits_of, i64_digits_of, u64_string, i64_string, usize_string};
use crate::floats;
use crate::references::ObjectReference;

verus! {

/// A stack frame recorded in an exception's stack trace.
#[derive(Debug)]
pub struct StackFrame {
    /// The program counter where the exception occurred.
    pub pc: usize,
    /// Optional module name.
    pub module: Option<String>,
}

/// The mathematical model of a stack frame.
pub ghost struct StackFrameV {
    pub pc: int,
    pub module: Option<Seq<char>>,
}

impl View for StackFrame {
    type V = StackFrameV;

    open spec fn view(&self) -> StackFrameV {
        StackFrameV {
            pc: self.pc as int,
            module: match self.module {
                Option::Some(m) => Option::Some(m@),
                Option::None => Option::None,
            },
        }
    }
}

/// Exception data for structured exception handling.
#[derive(Debug)]
pub struct ExceptionData {
    /// The exception type, as a string.
    pub exception_type: String,
    /// The exception message.
    pub message: String,
    /// Stack trace information.
    pub stack_trace: Vec<StackFrame>,
}

/// The mathematical model of exception data.
pub ghost struct ExceptionDataV {
    pub exception_type: Seq<char>,
    pub message: Seq<char>,
    pub stack_trace: Seq<StackFrameV>,
}

impl View for ExceptionData {
    type V = ExceptionDataV;

    open spec fn view(&self) -> ExceptionDataV {
        ExceptionDataV {
            exception_type: self.exception_type@,
            message: self.message@,
            stack_trace: Seq::new(self.stack_trace@.len(), |i: int| self.stack_trace@[i]@),
        }
    }
}

impl Clone for StackFrame {
    /// A copy whose model equals the original's.
    fn clone(&self) -> (r: Self)
        ensures
            r@ == self@,
    {
        StackFrame {
            pc: self.pc,
            module: match &self.module {
                Option::Some(m) => Option::Some(m.clone()),
                Option::None => Option::None,
            },
        }
    }
}

impl Clone for ExceptionData {
    /// A deep copy whose model equals the original's.
    fn clone(&self) -> (r: Self)
        ensures
            r@ == self@,
    {
        let mut trace: Vec<StackFrame> = Vec::new();
        let mut i: usize = 0;
        while i < self.stack_trace.len()
            invariant
                i <= self.stack_trace@.len(),
                trace@.len() == i,
                forall|j: int| 0 <= j < i ==> trace@[j]@ == self.stack_trace@[j]@,
            decreases self.stack_trace@.len() - i,
        {
            trace.push(self.stack_trace[i].clone());
            i = i + 1;
        }
        let r = ExceptionData {
            exception_type: self.exception_type.clone(),
            message: self.message.clone(),
            stack_trace: trace,
        };
        proof {
            assert(r@.stack_trace =~= self@.stack_trace);
        }
        r
    }
}

/// A value in the VM.
#[derive(Debug)]
pub enum Value {
    Null,
    Integer(i64),
    /// A double-precision float, carried as its IEEE-754 bit pattern.
    Float(u64),
    Boolean(bool),
    String(String),
    Object(ObjectReference),
    Array(Vec<Value>),
    HeapId(u32),
    ProgramCounter(usize),
    Exception(ExceptionData),
}

/// The mathematical model of a value.
pub ghost enum ValueV {
    Null,
    Integer(i64),
    Float(u64),
    Boolean(bool),
    String(Seq<char>),
    Object(ObjectReference),
    Array(Seq<ValueV>),
    HeapId(u32),
    ProgramCounter(int),
    Exception(ExceptionDataV),
}

pub open spec fn view_of_values(s: Seq<Value>) -> Seq<ValueV>
    decreases s,
{
    if s.len() == 0 {
        Seq::empty()
    } else {
        view_of_values(s.drop_last()).push(value_view(s.last()))
    }
}

pub open spec fn value_view(v: Value) -> ValueV
    decreases v,
{
    match v {
        Value::Null => ValueV::Null,
        Value::Integer(i) => ValueV::Integer(i),
        Value::Float(b) => ValueV::Float(b),
        Value::Boolean(b) => ValueV::Boolean(b),
        Value::String(s) => ValueV::String(s@),
        Value::Object(r) => ValueV::Object(r),
        Value::Array(a) => ValueV::Array(view_of_values(a@)),
        Value::HeapId(h) => ValueV::HeapId(h),
        Value::ProgramCounter(p) => ValueV::ProgramCounter(p as int),
        Value::Exception(e) => ValueV::Exception(e@),
    }
}

impl View for Value {
    type V = ValueV;

    open spec fn view(&self) -> ValueV {
        value_view(*self)
    }
}

/// The element views of a value sequence, element by element.
pub broadcast proof fn lemma_view_of_values_index(s: Seq<Value>, i: int)
    requires
        0 <= i < s.len(),
    ensures
        #[trigger] view_of_values(s)[i] == value_view(s[i]),
        view_of_values(s).len() == s.len(),
    decreases s,
{
    lemma_view_of_values_len(s);
    if s.len() > 0 {
        if i < s.len() - 1 {
            lemma_view_of_values_index(s.drop_last(), i);
            assert(s.drop_last()[i] == s[i]);
        } else {
            assert(s.last() == s[i]);
        }
    }
}

pub broadcast proof fn lemma_view_of_values_len(s: Seq<Value>)
    ensures
        (#[trigger] view_of_values(s)).len() == s.len(),
    decreases s,
{
    if s.len() > 0 {
        lemma_view_of_values_len(s.drop_last());
    }
}

/// The rendering of a value, following the display shape of each
/// variant.
pub open spec fn render_of(v: ValueV) -> Seq<char>
    decreases v,
{
    match v {
        ValueV::Null => "null"@,
        ValueV::Integer(i) => i64_digits_of(i),
        ValueV::Float(b) => floats::f64_string_of(b),
        ValueV::Boolean(b) => if b { "true"@ } else { "false"@ },
        ValueV::String(s) => "\""@ + s + "\""@,
        ValueV::Object(r) => "<object:ref="@ + r.spec_describe_debug() + ">"@,
        ValueV::Array(elems) => "["@ + render_of_elems(elems) + "]"@,
        ValueV::HeapId(h) => "<heap:"@ + u64_digits_of(h as u64) + ">"@,
        ValueV::ProgramCounter(p) => "<pc:"@ + u64_digits_of(p as u64) + ">"@,
        ValueV::Exception(e) => "Exception: "@ + e.exception_type + "("@ + e.message + ")"@,
    }
}

/// The comma-separated renderings of array elements.
pub open spec fn render_of_elems(elems: Seq<ValueV>) -> Seq<char>
    decreases elems,
{
    if elems.len() == 0 {
        Seq::empty()
    } else if elems.len() == 1 {
        render_of(elems[0])
    } else {
        render_of_elems(elems.drop_last()) + ", "@ + render_of(elems.last())
    }
}

/// Whether a value counts as true in conditionals: null, integer zero,
/// float zero, NaN, false, the empty string and the empty array are false;
/// everything else is true.
pub open spec fn truthy_of(v: ValueV) -> bool {
    match v {
        ValueV::Null => false,
        ValueV::Integer(i) => i != 0,
        ValueV::Float(b) => !floats::f64_is_zero(b) && !floats::f64_is_nan(b),
        ValueV::Boolean(b) => b,
        ValueV::String(s) => s.len() != 0,
        ValueV::Array(a) => a.len() != 0,
        ValueV::Object(_) => true,
        ValueV::HeapId(_) => true,
        ValueV::ProgramCounter(_) => true,
        ValueV::Exception(_) => true,
    }
}

impl Value {
    /// Create a new exception value.
    pub fn create_exception(exception_type: &str, message: &str) -> (r: Self)
        ensures
            r@ == (ValueV::Exception(ExceptionDataV {
                exception_type: exception_type@,
                message: message@,
                stack_trace: Seq::empty(),
            })),
    {
        let r = Value::Exception(ExceptionData {
            exception_type: exception_type.to_owned(),
            message: message.to_owned(),
            stack_trace: Vec::new(),
        });
        proof {
            assert(r@ matches ValueV::Exception(e) && e.stack_trace =~= Seq::<StackFrameV>::empty());
        }
        r
    }

    /// Check if the value is an exception.
    pub fn is_exception(&self) -> (r: bool)
        ensures
            r == (self@ matches ValueV::Exception(_)),
    {
        matches!(self, Value::Exception(_))
    }

    /// Get the exception data if this is an exception.
    pub fn as_exception(&self) -> (r: Option<&ExceptionData>)
        ensures
            match r {
                Option::Some(e) => self@ == ValueV::Exception(e@),
                Option::None => !(self@ matches ValueV::Exception(_)),
            },
    {
        match self {
            Value::Exception(exc) => Some(exc),
            _ => None,
        }
    }

    /// Add a stack frame to an exception's stack trace; any other value is
    /// left unchanged.
    pub fn add_stack_frame(&mut self, pc: usize, module_name: Option<&str>)
        ensures
            match old(self)@ {
                ValueV::Exception(e) => final(self)@ == (ValueV::Exception(ExceptionDataV {
                    stack_trace: e.stack_trace.push(StackFrameV {
                        pc: pc as int,
                        module: match module_name {
                            Option::Some(m) => Option::Some(m@),
                            Option::None => Option::None,
                        },
                    }),
                    ..e
                })),
                _ => final(self)@ == old(self)@,
            },
    {
        if let Value::Exception(exc) = self {
            let module: Option<String> = match module_name {
                Some(s) => Some(s.to_owned()),
                None => None,
            };
            exc.stack_trace.push(StackFrame { pc, module });
            proof {
                let old_trace = old(self)@->Exception_0.stack_trace;
                let new_trace = self@->Exception_0.stack_trace;
                assert(new_trace =~= old_trace.push(StackFrameV {
                    pc: pc as int,
                    module: match module_name {
                        Option::Some(m) => Option::Some(m@),
                        Option::None => Option::None,
                    },
                }));
            }
        }
    }

    /// Whether the value counts as true in conditionals.
    pub open spec fn spec_truthy(self) -> bool {
        truthy_of(value_view(self))
    }

    /// Checks if the value is truthy (used in conditionals).
    pub fn is_truthy(&self) -> (r: bool)
        ensures
            r == self.spec_truthy(),
    {
        match self {
            Value::Null => false,
            Value::Integer(i) => *i != 0,
            Value::Float(b) => !floats::f64_is_zero_exec(*b) && !floats::f64_is_nan_exec(*b),
            Value::Boolean(b) => *b,
            Value::String(s) => {
                let r = !s.as_str().is_empty();
                r
            },
            Value::Object(_) => true,
            Value::Array(arr) => {
                proof { lemma_view_of_values_len(arr@); }
                arr.len() != 0
            },
            Value::HeapId(_) => true,
            Value::ProgramCounter(_) => true,
            Value::Exception(_) => true,
        }
    }

    /// Get the value as an integer: floats convert toward zero, booleans to
    /// zero or one; anything else is an error.
    pub fn as_integer(&self) -> (r: Result<i64, String>)
        ensures
            match self@ {
                ValueV::Integer(i) => r == Result::<i64, String>::Ok(i),
                ValueV::Float(b) => r == Result::<i64, String>::Ok(floats::i64_of_f64(b)),
                ValueV::Boolean(b) => r == Result::<i64, String>::Ok(if b { 1i64 } else { 0i64 }),
                _ => r is Err,
            },
    {
        match self {
            Value::Integer(i) => Ok(*i),
            Value::Float(b) => Ok(floats::f64_to_i64(*b)),
            Value::Boolean(b) => Ok(if *b { 1 } else { 0 }),
            _ => Err(self.conversion_error("integer")),
        }
    }

    /// Get the value as a float bit pattern: integers convert to the nearest
    /// double, booleans to zero or one; anything else is an error.
    pub fn as_float(&self) -> (r: Result<u64, String>)
        ensures
            match self@ {
                ValueV::Integer(i) => r == Result::<u64, String>::Ok(floats::f64_of_i64(i)),
                ValueV::Float(b) => r == Result::<u64, String>::Ok(b),
                ValueV::Boolean(b) => r == Result::<u64, String>::Ok(
                    if b { 0x3FF0_0000_0000_0000u64 } else { 0u64 }),
                _ => r is Err,
            },
    {
        match self {
            Value::Integer(i) => Ok(floats::f64_from_i64(*i)),
            Value::Float(b) => Ok(*b),
            Value::Boolean(b) => Ok(if *b { 0x3FF0_0000_0000_0000 } else { 0 }),
            _ => Err(self.conversion_error("float")),
        }
    }

    /// Get the value as a boolean: its truthiness.
    pub fn as_boolean(&self) -> (r: Result<bool, String>)
        ensures
            r == Result::<bool, String>::Ok(self.spec_truthy()),
    {
        Ok(self.is_truthy())
    }

    /// Get the value as a string, or an error for any other variant.
    pub fn as_string(&self) -> (r: Result<String, String>)
        ensures
            match self@ {
                ValueV::String(s) => r matches Result::Ok(out) && out@ == s,
                _ => r is Err,
            },
    {
        match self {
            Value::String(s) => Ok(s.clone()),
            _ => Err(self.conversion_error("string")),
        }
    }

    /// Get the value as an array, or an error for any other variant.
    pub fn as_array(&self) -> (r: Result<&Vec<Value>, String>)
        ensures
            match self@ {
                ValueV::Array(a) => r matches Result::Ok(out) && view_of_values(out@) == a,
                _ => r is Err,
            },
    {
        match self {
            Value::Array(arr) => Ok(arr),
            _ => Err(self.conversion_error("array")),
        }
    }

    /// The message used when a conversion is refused.
    fn conversion_error(&self, target: &str) -> (r: String)
        ensures
            r@ == "Cannot convert "@ + render_of(self@) + " to "@ + target@,
    {
        let mut s = "Cannot convert ".to_owned();
        s.append(self.render().as_str());
        s.append(" to ");
        s.append(target);
        s
    }

    /// Render the value for output and diagnostics.
    pub fn render(&self) -> (r: String)
        ensures
            r@ == render_of(self@),
        decreases self,
    {
        match self {
            Value::Null => "null".to_owned(),
            Value::Integer(i) => i64_string(*i),
            Value::Float(b) => floats::f64_string(*b),
            Value::Boolean(b) => if *b { "true".to_owned() } else { "false".to_owned() },
            Value::String(s) => {
                let mut out = "\"".to_owned();
                out.append(s.as_str());
                out.append("\"");
                out
            },
            Value::Object(r) => {
                let mut out = "<object:ref=".to_owned();
                out.append(r.describe_debug().as_str());
                out.append(">");
                out
            },
            Value::Array(arr) => {
                let mut out = "[".to_owned();
                let mut i: usize = 0;
                while i < arr.len()
                    invariant
                        i <= arr@.len(),
                        *self == Value::Array(*arr),
                        out@ == "["@ + render_of_elems(view_of_values(arr@.take(i as int))),
                    decreases arr@.len() - i,
                {
                    if i > 0 {
                        out.append(", ");
                    }
                    proof {
                        assert(decreases_to!(*self => arr@[i as int])) by {
                            assert(decreases_to!(*self => self->Array_0));
                            assert(self->Array_0 == *arr);
                            assert(decreases_to!(*arr => arr@));
                            assert(decreases_to!(arr@ => arr@[i as int]));
                        }
                    }
                    out.append(arr[i].render().as_str());
                    proof {
                        lemma_render_elems_step(arr@, i as int);
                    }
                    i = i + 1;
                }
                out.append("]");
                proof {
                    assert(arr@.take(arr@.len() as int) =~= arr@);
                }
                out
            },
            Value::HeapId(h) => {
                let mut out = "<heap:".to_owned();
                out.append(u64_string(*h as u64).as_str());
                out.append(">");
                out
            },
            Value::ProgramCounter(p) => {
                let mut out = "<pc:".to_owned();
                out.append(usize_string(*p).as_str());
                out.append(">");
                out
            },
            Value::Exception(e) => {
                let mut out = "Exception: ".to_owned();
                out.append(e.exception_type.as_str());
                out.append("(");
                out.append(e.message.as_str());
                out.append(")");
                out
            },
        }
    }
}

proof fn lemma_render_elems_step(s: Seq<Value>, i: int)
    requires
        0 <= i < s.len(),
    ensures
        render_of_elems(view_of_values(s.take(i + 1)))
            == if i == 0 {
                render_of(value_view(s[0]))
            } else {
                render_of_elems(view_of_values(s.take(i))) + ", "@ + render_of(value_view(s[i]))
            },
{
    lemma_view_of_values_len(s.take(i + 1));
    lemma_view_of_values_len(s.take(i));
    assert(view_of_values(s.take(i + 1)).drop_last() =~= view_of_values(s.take(i))) by {
        assert(s.take(i + 1).drop_last() =~= s.take(i));
        assert(view_of_values(s.take(i + 1)) == view_of_values(s.take(i + 1).drop_last()).push(
            value_view(s.take(i + 1).last())));
    }
    lemma_view_of_values_index(s.take(i + 1), i);
    assert(view_of_values(s.take(i + 1)).last() == value_view(s[i]));
    if i == 0 {
        assert(view_of_values(s.take(1)).len() == 1);
    }
}

impl Clone for Value {
    /// A deep copy whose model equals the original's.
    fn clone(&self) -> (r: Self)
        ensures
            r@ == self@,
        decreases self,
    {
        match self {
            Value::Null => Value::Null,
            Value::Integer(i) => Value::Integer(*i),
            Value::Float(b) => Value::Float(*b),
            Value::Boolean(b) => Value::Boolean(*b),
            Value::String(s) => Value::String(s.clone()),
            Value::Object(r) => Value::Object(*r),
            Value::Array(arr) => {
                let mut out: Vec<Value> = Vec::new();
                let mut i: usize = 0;
                while i < arr.len()
                    invariant
                        i <= arr@.len(),
                        *self == Value::Array(*arr),
                        view_of_values(out@) == view_of_values(arr@.take(i as int)),
                        out@.len() == i,
                    decreases arr@.len() - i,
                {
                    proof {
                        assert(decreases_to!(*self => arr@[i as int])) by {
                            assert(decreases_to!(*self => self->Array_0));
                            assert(self->Array_0 == *arr);
                            assert(decreases_to!(*arr => arr@));
                            assert(decreases_to!(arr@ => arr@[i as int]));
                        }
                    }
                    let c = arr[i].clone();
                    let ghost prev = out@;
                    out.push(c);
                    proof {
                        lemma_view_of_values_push(prev, c);
                        assert(arr@.take(i as int + 1).drop_last() =~= arr@.take(i as int));
                        assert(view_of_values(arr@.take(i as int + 1))
                            == view_of_values(arr@.take(i as int)).push(value_view(arr@.take(i as int + 1).last())));
                        assert(arr@.take(i as int + 1).last() == arr@[i as int]);
                    }
                    i = i + 1;
                }
                proof {
                    assert(arr@.take(arr@.len() as int) =~= arr@);
                }
                Value::Array(out)
            },
            Value::Exception(e) => Value::Exception(e.clone()),
            Value::HeapId(h) => Value::HeapId(*h),
            Value::ProgramCounter(p) => Value::ProgramCounter(*p),
        }
    }
}

pub proof fn lemma_view_of_values_push(s: Seq<Value>, v: Value)
    ensures
        view_of_values(s.push(v)) == view_of_values(s).push(value_view(v)),
{
    assert(s.push(v).drop_last() =~= s);
    assert(s.push(v).last() == v);
    assert(view_of_values(s.push(v)) == view_of_values(s.push(v).drop_last()).push(value_view(
        s.push(v).last())));
}

} // verus!
