//! Compilation of analyzed programs into the high-level instruction
//! stream: assignments in dependency order, endpoint handlers with fresh
//! handles, and expression compilation, including the promise, endpoint
//! and HTTP-call string annotations.

use vstd::prelude::*;
use vstd::string::StringExecFns;
use crate::ast::{AstNode, BinaryOp};
use crate::analyzer::AnalyzedProgram;

verus! {

/// A constant the instruction stream carries.
#[derive(Debug)]
pub enum GenValue {
    Null,
    Boolean(bool),
    /// A number, as the bit pattern of its double value.
    Number(u64),
    String(String),
    Array(Vec<GenValue>),
    Object(Vec<(String, GenValue)>),
    /// A promise, by its handle.
    Promise(String),
}

/// One high-level instruction.
#[derive(Debug)]
pub enum GenInstruction {
    LoadConstant(GenValue),
    LoadVariable(String),
    StoreVariable(String),
    Add,
    Subtract,
    Multiply,
    Divide,
    CreateObject,
    SetProperty(String),
    GetProperty(String),
    CreateArray,
    AppendArray,
    CreatePromise(String),
    AwaitPromise(String),
    RegisterEndpoint { method: String, path: String, handler_id: String },
    CallHttp { method: String, url: String, body: Option<String> },
    Return,
}

/// Where an endpoint's handler stands in the stream.
#[derive(Debug)]
pub struct EndpointRecord {
    pub handler_id: String,
    pub method: String,
    pub path: String,
    pub handler_start: usize,
    pub handler_end: usize,
}

/// A compiled program.
#[derive(Debug)]
pub struct BytecodeProgram {
    pub instructions: Vec<GenInstruction>,
    pub constants: Vec<GenValue>,
    pub endpoints: Vec<EndpointRecord>,
    pub entry_point: usize,
}

/// The generator's accumulating state.
pub struct CodeGenerator {
    pub instructions: Vec<GenInstruction>,
    pub constants: Vec<GenValue>,
    pub endpoints: Vec<EndpointRecord>,
}

/// Relies on uuid::Uuid::new_v4 and its rendering: a freshly drawn random
/// handle. Nothing is promised of its text, which differs between calls.
#[verifier::external_body]
fn fresh_handle() -> (r: String) {
    uuid::Uuid::new_v4().to_string()
}

/// Whether the characters carry the prefix.
fn chars_start_with(chars: &Vec<char>, prefix: &Vec<char>) -> (r: bool)
    ensures
        r == (chars@.len() >= prefix@.len()
            && chars@.take(prefix@.len() as int) =~= prefix@),
{
    if chars.len() < prefix.len() {
        return false;
    }
    let mut i: usize = 0;
    while i < prefix.len()
        invariant
            i <= prefix@.len(),
            prefix@.len() <= chars@.len(),
            forall|j: int| 0 <= j < i ==> chars@[j] == prefix@[j],
        decreases prefix@.len() - i,
    {
        if chars[i] != prefix[i] {
            return false;
        }
        i = i + 1;
    }
    true
}

/// The string the character range spells.
fn chars_string(chars: &Vec<char>, from: usize, to: usize) -> (r: String)
    requires
        from <= to <= chars@.len(),
    ensures
        r@ == chars@.subrange(from as int, to as int),
{
    let mut out = String::new();
    let mut i: usize = from;
    while i < to
        invariant
            from <= i <= to <= chars@.len(),
            out@ == chars@.subrange(from as int, i as int),
        decreases to - i,
    {
        let piece = crate::interpreter::char_string(chars[i]);
        out.append(piece.as_str());
        proof {
            assert(out@ =~= chars@.subrange(from as int, i as int + 1));
        }
        i = i + 1;
    }
    out
}

/// The first position of the character at or after the start, if any.
fn find_char(chars: &Vec<char>, from: usize, needle: char) -> (r: Option<usize>)
    requires
        from <= chars@.len(),
    ensures
        match r {
            Option::Some(i) => from <= i < chars@.len() && chars@[i as int] == needle
                && (forall|j: int| from <= j < i ==> chars@[j] != needle),
            Option::None => forall|j: int| from <= j < chars@.len() ==> chars@[j] != needle,
        },
{
    let mut i: usize = from;
    while i < chars.len()
        invariant
            from <= i <= chars@.len(),
            forall|j: int| from <= j < i ==> chars@[j] != needle,
        decreases chars@.len() - i,
    {
        if chars[i] == needle {
            return Some(i);
        }
        i = i + 1;
    }
    None
}

impl CodeGenerator {
    /// A generator with nothing emitted yet.
    pub fn new() -> (r: Self)
        ensures
            r.instructions@.len() == 0,
            r.constants@.len() == 0,
            r.endpoints@.len() == 0,
    {
        CodeGenerator { instructions: Vec::new(), constants: Vec::new(), endpoints: Vec::new() }
    }

    /// Compile the analyzed program: every recorded symbol's expression is
    /// compiled and stored under its name, in resolution order, and then
    /// each endpoint handler is compiled, closed with a return, and
    /// registered under a fresh handle. The stream only ever grows.
    pub fn generate(&mut self, program: &AnalyzedProgram)
        -> (r: Result<BytecodeProgram, String>)
        ensures
            final(self).instructions@.len() >= old(self).instructions@.len(),
            final(self).instructions@.take(old(self).instructions@.len() as int)
                == old(self).instructions@,
            r matches Result::Ok(p) ==> p.entry_point == old(self).instructions@.len(),
    {
        let ghost base = self.instructions@;
        let entry_point = self.instructions.len();
        let mut oi: usize = 0;
        while oi < program.resolution_order.len()
            invariant
                oi <= program.resolution_order@.len(),
                base == old(self).instructions@,
                self.instructions@.len() >= base.len(),
                self.instructions@.take(base.len() as int) == base,
            decreases program.resolution_order@.len() - oi,
        {
            let ghost pre = self.instructions@;
            match program.symbol_table.get_symbol(program.resolution_order[oi].as_str()) {
                Some(symbol) => {
                    let has_node = symbol.ast_node.is_some();
                    if has_node {
                        let name = symbol.name.clone();
                        match self.generate_symbol_value(
                            &program.resolution_order[oi], program) {
                            Ok(()) => {
                                self.instructions.push(
                                    GenInstruction::StoreVariable(name));
                            },
                            Err(e) => {
                                proof {
                        assert(self.instructions@.take(pre.len() as int) =~= pre);
                        lemma_take_prefix(self.instructions@, pre, base.len() as int);
                    }
                                return Err(e);
                            },
                        }
                    }
                },
                None => {},
            }
            proof {
                        assert(self.instructions@.take(pre.len() as int) =~= pre);
                        lemma_take_prefix(self.instructions@, pre, base.len() as int);
                    }
            oi = oi + 1;
        }
        let mut ei: usize = 0;
        while ei < program.endpoints.len()
            invariant
                ei <= program.endpoints@.len(),
                base == old(self).instructions@,
                self.instructions@.len() >= base.len(),
                self.instructions@.take(base.len() as int) == base,
            decreases program.endpoints@.len() - ei,
        {
            let ghost pre = self.instructions@;
            let handler_id = fresh_handle();
            let handler_start = self.instructions.len();
            match self.generate_expression(&program.endpoints[ei].handler,
                &program.symbol_table) {
                Ok(()) => {},
                Err(e) => {
                    proof {
                        assert(self.instructions@.take(pre.len() as int) =~= pre);
                        lemma_take_prefix(self.instructions@, pre, base.len() as int);
                    }
                    return Err(e);
                },
            }
            self.instructions.push(GenInstruction::Return);
            let handler_end = self.instructions.len();
            let method = program.endpoints[ei].method.describe().to_owned();
            self.instructions.push(GenInstruction::RegisterEndpoint {
                method: program.endpoints[ei].method.describe().to_owned(),
                path: program.endpoints[ei].path.clone(),
                handler_id: handler_id.clone(),
            });
            self.endpoints.push(EndpointRecord {
                handler_id,
                method,
                path: program.endpoints[ei].path.clone(),
                handler_start,
                handler_end,
            });
            proof {
                        assert(self.instructions@.take(pre.len() as int) =~= pre);
                        lemma_take_prefix(self.instructions@, pre, base.len() as int);
                    }
            ei = ei + 1;
        }
        let instructions = clone_instructions(&self.instructions);
        let mut endpoints: Vec<EndpointRecord> = Vec::new();
        core::mem::swap(&mut endpoints, &mut self.endpoints);
        Ok(BytecodeProgram {
            instructions,
            constants: Vec::new(),
            endpoints,
            entry_point,
        })
    }

    /// Compile the expression recorded for the named symbol, if any.
    fn generate_symbol_value(&mut self, name: &String, program: &AnalyzedProgram)
        -> (r: Result<(), String>)
        ensures
            final(self).instructions@.len() >= old(self).instructions@.len(),
            final(self).instructions@.take(old(self).instructions@.len() as int)
                == old(self).instructions@,
    {
        let node = match program.symbol_table.get_symbol(name.as_str()) {
            Some(symbol) => match &symbol.ast_node {
                Some(node) => node.clone(),
                None => { return Ok(()); },
            },
            None => { return Ok(()); },
        };
        self.generate_expression(&node, &program.symbol_table)
    }

    /// Compile one expression onto the stream: literals load themselves
    /// (a string beginning with a promise, endpoint or HTTP annotation
    /// compiles to that operation instead), an identifier of promise type
    /// awaits, any other identifier loads, arithmetic compiles both sides
    /// then the operator, objects and arrays build member by member, a
    /// member access projects, and calls and promises draw fresh handles.
    /// The stream only ever grows, and what was emitted before stays.
    pub fn generate_expression(
        &mut self,
        expr: &AstNode,
        table: &crate::analyzer::SymbolTable,
    ) -> (r: Result<(), String>)
        ensures
            final(self).instructions@.len() >= old(self).instructions@.len(),
            final(self).instructions@.take(old(self).instructions@.len() as int)
                == old(self).instructions@,
            expr matches AstNode::Number(n) ==> r is Ok
                && final(self).instructions@
                    == old(self).instructions@.push(
                        GenInstruction::LoadConstant(GenValue::Number(*n))),
            expr matches AstNode::Boolean(b) ==> r is Ok
                && final(self).instructions@
                    == old(self).instructions@.push(
                        GenInstruction::LoadConstant(GenValue::Boolean(*b))),
            expr is Null ==> r is Ok
                && final(self).instructions@
                    == old(self).instructions@.push(
                        GenInstruction::LoadConstant(GenValue::Null)),
        decreases expr,
    {
        let ghost base = self.instructions@;
        match expr {
            AstNode::String(value) => {
                self.generate_string(value);
                Ok(())
            },
            AstNode::Number(value) => {
                self.instructions.push(
                    GenInstruction::LoadConstant(GenValue::Number(*value)));
                Ok(())
            },
            AstNode::Boolean(value) => {
                self.instructions.push(
                    GenInstruction::LoadConstant(GenValue::Boolean(*value)));
                Ok(())
            },
            AstNode::Null => {
                self.instructions.push(
                    GenInstruction::LoadConstant(GenValue::Null));
                Ok(())
            },
            AstNode::Identifier(name) => {
                let is_promise = match table.get_symbol(name.as_str()) {
                    Some(symbol) => matches!(&symbol.symbol_type,
                        crate::analyzer::Type::Promise(_)),
                    None => false,
                };
                if is_promise {
                    self.instructions.push(GenInstruction::AwaitPromise(name.clone()));
                } else {
                    self.instructions.push(GenInstruction::LoadVariable(name.clone()));
                }
                Ok(())
            },
            AstNode::Binary { left, operator, right, .. } => {
                let ghost pre = self.instructions@;
                match self.generate_expression(left, table) {
                    Ok(()) => {},
                    Err(e) => { return Err(e); },
                }
                let ghost mid = self.instructions@;
                match self.generate_expression(right, table) {
                    Ok(()) => {},
                    Err(e) => {
                        proof { lemma_take_prefix(self.instructions@, mid, base.len() as int); }
                        return Err(e);
                    },
                }
                proof { lemma_take_prefix(self.instructions@, mid, base.len() as int); }
                match operator {
                    BinaryOp::Add => self.instructions.push(GenInstruction::Add),
                    BinaryOp::Subtract => self.instructions.push(GenInstruction::Subtract),
                    BinaryOp::Multiply => self.instructions.push(GenInstruction::Multiply),
                    BinaryOp::Divide => self.instructions.push(GenInstruction::Divide),
                    BinaryOp::Equal => {
                        proof { lemma_take_prefix(self.instructions@, mid, base.len() as int); }
                        return Err("Unsupported binary operator".to_owned());
                    },
                }
                Ok(())
            },
            AstNode::Object { fields, .. } => {
                self.instructions.push(GenInstruction::CreateObject);
                let mut i: usize = 0;
                while i < fields.len()
                    invariant
                        i <= fields@.len(),
                        (*expr == AstNode::Object { fields: *fields, line: expr->Object_line }),
                        base == old(self).instructions@,
                        self.instructions@.len() >= base.len(),
                        self.instructions@.take(base.len() as int) == base,
                    decreases fields@.len() - i,
                {
                    proof {
                        assert(decreases_to!(*expr => fields@[i as int].1)) by {
                            assert(decreases_to!(*expr => expr->Object_fields));
                            assert(expr->Object_fields == *fields);
                            assert(decreases_to!(*fields => fields@));
                            assert(decreases_to!(fields@ => fields@[i as int]));
                            assert(decreases_to!(fields@[i as int] => fields@[i as int].1));
                        }
                    }
                    let ghost pre = self.instructions@;
                    let key = fields[i].0.clone();
                    match self.generate_expression(&fields[i].1, table) {
                        Ok(()) => {},
                        Err(e) => {
                            proof {
                        assert(self.instructions@.take(pre.len() as int) =~= pre);
                        lemma_take_prefix(self.instructions@, pre, base.len() as int);
                    }
                            return Err(e);
                        },
                    }
                    self.instructions.push(GenInstruction::SetProperty(key));
                    proof {
                        assert(self.instructions@.take(pre.len() as int) =~= pre);
                        lemma_take_prefix(self.instructions@, pre, base.len() as int);
                    }
                    i = i + 1;
                }
                Ok(())
            },
            AstNode::Array { elements, .. } => {
                self.instructions.push(GenInstruction::CreateArray);
                let mut i: usize = 0;
                while i < elements.len()
                    invariant
                        i <= elements@.len(),
                        (*expr == AstNode::Array { elements: *elements, line: expr->Array_line }),
                        base == old(self).instructions@,
                        self.instructions@.len() >= base.len(),
                        self.instructions@.take(base.len() as int) == base,
                    decreases elements@.len() - i,
                {
                    proof {
                        assert(decreases_to!(*expr => elements@[i as int])) by {
                            assert(decreases_to!(*expr => expr->Array_elements));
                            assert(expr->Array_elements == *elements);
                            assert(decreases_to!(*elements => elements@));
                            assert(decreases_to!(elements@ => elements@[i as int]));
                        }
                    }
                    let ghost pre = self.instructions@;
                    match self.generate_expression(&elements[i], table) {
                        Ok(()) => {},
                        Err(e) => {
                            proof {
                        assert(self.instructions@.take(pre.len() as int) =~= pre);
                        lemma_take_prefix(self.instructions@, pre, base.len() as int);
                    }
                            return Err(e);
                        },
                    }
                    self.instructions.push(GenInstruction::AppendArray);
                    proof {
                        assert(self.instructions@.take(pre.len() as int) =~= pre);
                        lemma_take_prefix(self.instructions@, pre, base.len() as int);
                    }
                    i = i + 1;
                }
                Ok(())
            },
            AstNode::Promise { .. } => {
                let promise_id = fresh_handle();
                self.instructions.push(GenInstruction::CreatePromise(promise_id));
                Ok(())
            },
            AstNode::HttpCall { method, body, .. } => {
                let body_str: Option<String> = match body {
                    Some(_) => Some("{}".to_owned()),
                    None => None,
                };
                self.instructions.push(GenInstruction::CallHttp {
                    method: method.describe().to_owned(),
                    url: "<expression>".to_owned(),
                    body: body_str,
                });
                Ok(())
            },
            AstNode::MemberAccess { object, property, .. } => {
                let ghost pre = self.instructions@;
                match self.generate_expression(object, table) {
                    Ok(()) => {},
                    Err(e) => { return Err(e); },
                }
                self.instructions.push(GenInstruction::GetProperty(property.clone()));
                proof {
                        assert(self.instructions@.take(pre.len() as int) =~= pre);
                        lemma_take_prefix(self.instructions@, pre, base.len() as int);
                    }
                Ok(())
            },
            AstNode::FunctionCall { name, arguments, .. } => {
                let mut i: usize = 0;
                while i < arguments.len()
                    invariant
                        i <= arguments@.len(),
                        (*expr == AstNode::FunctionCall {
                            name: expr->FunctionCall_name,
                            arguments: *arguments,
                            line: expr->FunctionCall_line,
                        }),
                        base == old(self).instructions@,
                        self.instructions@.len() >= base.len(),
                        self.instructions@.take(base.len() as int) == base,
                    decreases arguments@.len() - i,
                {
                    proof {
                        assert(decreases_to!(*expr => arguments@[i as int])) by {
                            assert(decreases_to!(*expr => expr->FunctionCall_arguments));
                            assert(expr->FunctionCall_arguments == *arguments);
                            assert(decreases_to!(*arguments => arguments@));
                            assert(decreases_to!(arguments@ => arguments@[i as int]));
                        }
                    }
                    let ghost pre = self.instructions@;
                    match self.generate_expression(&arguments[i], table) {
                        Ok(()) => {},
                        Err(e) => {
                            proof {
                        assert(self.instructions@.take(pre.len() as int) =~= pre);
                        lemma_take_prefix(self.instructions@, pre, base.len() as int);
                    }
                            return Err(e);
                        },
                    }
                    i = i + 1;
                }
                let mut promise_id = name.clone();
                promise_id.append(":");
                promise_id.append(fresh_handle().as_str());
                self.instructions.push(GenInstruction::CreatePromise(promise_id));
                Ok(())
            },
            _ => Err("Unsupported expression type for code generation".to_owned()),
        }
    }

    /// Compile a string literal: the promise, endpoint and HTTP-call
    /// annotations compile to their operations, and any other text loads
    /// itself as a constant.
    fn generate_string(&mut self, value: &String)
        ensures
            final(self).instructions@.len() >= old(self).instructions@.len(),
            final(self).instructions@.take(old(self).instructions@.len() as int)
                == old(self).instructions@,
            final(self).constants == old(self).constants,
    {
        let chars = crate::interpreter::string_chars(value.as_str());
        let promise_prefix = crate::interpreter::string_chars("@promise:");
        let endpoint_prefix = crate::interpreter::string_chars("@endpoint:");
        let http_prefix = crate::interpreter::string_chars("@http:");
        let clen = chars.len();
        if chars_start_with(&chars, &promise_prefix) {
            let id = chars_string(&chars, promise_prefix.len(), chars.len());
            self.instructions.push(GenInstruction::CreatePromise(id));
        } else if chars_start_with(&chars, &endpoint_prefix) {
            let start = endpoint_prefix.len();
            match find_char(&chars, start, ':') {
                Some(cut) => {
                    proof { assert(cut < clen); }
                    let method = chars_string(&chars, start, cut);
                    let path = chars_string(&chars, cut + 1, clen);
                    self.instructions.push(GenInstruction::RegisterEndpoint {
                        method: method.clone(),
                        path: path.clone(),
                        handler_id: "default".to_owned(),
                    });
                    let here = self.instructions.len();
                    let mut key = method.clone();
                    key.append(":");
                    key.append(path.as_str());
                    self.endpoints.push(EndpointRecord {
                        handler_id: key,
                        method,
                        path,
                        handler_start: here,
                        handler_end: here,
                    });
                },
                None => {
                    self.instructions.push(GenInstruction::LoadConstant(
                        GenValue::String(value.clone())));
                },
            }
        } else if chars_start_with(&chars, &http_prefix) {
            let start = http_prefix.len();
            match find_char(&chars, start, ':') {
                Some(cut) => {
                    proof { assert(cut < clen); }
                    let method = chars_string(&chars, start, cut);
                    let url = chars_string(&chars, cut + 1, clen);
                    self.instructions.push(GenInstruction::CallHttp {
                        method,
                        url,
                        body: None,
                    });
                },
                None => {
                    self.instructions.push(GenInstruction::LoadConstant(
                        GenValue::String(value.clone())));
                },
            }
        } else {
            self.instructions.push(GenInstruction::LoadConstant(
                GenValue::String(value.clone())));
        }
    }
}

/// A prefix kept by one extension is kept by the next: what extends a
/// stream that keeps the base keeps the base.
proof fn lemma_take_prefix(now: Seq<GenInstruction>, pre: Seq<GenInstruction>, l: int)
    requires
        0 <= l <= pre.len() <= now.len(),
        now.take(pre.len() as int) == pre,
    ensures
        now.take(l) == pre.take(l),
{
    assert(now.take(l) =~= pre.take(l));
}

/// A copy of the emitted stream.
fn clone_instructions(instructions: &Vec<GenInstruction>) -> (r: Vec<GenInstruction>)
    ensures
        r@.len() == instructions@.len(),
{
    let mut out: Vec<GenInstruction> = Vec::new();
    let mut i: usize = 0;
    while i < instructions.len()
        invariant
            i <= instructions@.len(),
            out@.len() == i,
        decreases instructions@.len() - i,
    {
        out.push(clone_instruction(&instructions[i]));
        i = i + 1;
    }
    out
}

/// A copy of one instruction.
fn clone_instruction(instruction: &GenInstruction) -> (r: GenInstruction)
{
    match instruction {
        GenInstruction::LoadConstant(v) => GenInstruction::LoadConstant(clone_value(v)),
        GenInstruction::LoadVariable(s) => GenInstruction::LoadVariable(s.clone()),
        GenInstruction::StoreVariable(s) => GenInstruction::StoreVariable(s.clone()),
        GenInstruction::Add => GenInstruction::Add,
        GenInstruction::Subtract => GenInstruction::Subtract,
        GenInstruction::Multiply => GenInstruction::Multiply,
        GenInstruction::Divide => GenInstruction::Divide,
        GenInstruction::CreateObject => GenInstruction::CreateObject,
        GenInstruction::SetProperty(s) => GenInstruction::SetProperty(s.clone()),
        GenInstruction::GetProperty(s) => GenInstruction::GetProperty(s.clone()),
        GenInstruction::CreateArray => GenInstruction::CreateArray,
        GenInstruction::AppendArray => GenInstruction::AppendArray,
        GenInstruction::CreatePromise(s) => GenInstruction::CreatePromise(s.clone()),
        GenInstruction::AwaitPromise(s) => GenInstruction::AwaitPromise(s.clone()),
        GenInstruction::RegisterEndpoint { method, path, handler_id } =>
            GenInstruction::RegisterEndpoint {
                method: method.clone(),
                path: path.clone(),
                handler_id: handler_id.clone(),
            },
        GenInstruction::CallHttp { method, url, body } => GenInstruction::CallHttp {
            method: method.clone(),
            url: url.clone(),
            body: match body {
                Some(b) => Some(b.clone()),
                None => None,
            },
        },
        GenInstruction::Return => GenInstruction::Return,
    }
}

/// A copy of one constant.
fn clone_value(value: &GenValue) -> (r: GenValue)
    decreases value,
{
    match value {
        GenValue::Null => GenValue::Null,
        GenValue::Boolean(b) => GenValue::Boolean(*b),
        GenValue::Number(n) => GenValue::Number(*n),
        GenValue::String(s) => GenValue::String(s.clone()),
        GenValue::Array(items) => {
            let mut out: Vec<GenValue> = Vec::new();
            let mut i: usize = 0;
            while i < items.len()
                invariant
                    i <= items@.len(),
                    (*value == GenValue::Array(*items)),
                decreases items@.len() - i,
            {
                proof {
                    assert(decreases_to!(*value => items@[i as int])) by {
                        assert(decreases_to!(*value => value->Array_0));
                        assert(value->Array_0 == *items);
                        assert(decreases_to!(*items => items@));
                        assert(decreases_to!(items@ => items@[i as int]));
                    }
                }
                out.push(clone_value(&items[i]));
                i = i + 1;
            }
            GenValue::Array(out)
        },
        GenValue::Object(fields) => {
            let mut out: Vec<(String, GenValue)> = Vec::new();
            let mut i: usize = 0;
            while i < fields.len()
                invariant
                    i <= fields@.len(),
                    (*value == GenValue::Object(*fields)),
                decreases fields@.len() - i,
            {
                proof {
                    assert(decreases_to!(*value => fields@[i as int].1)) by {
                        assert(decreases_to!(*value => value->Object_0));
                        assert(value->Object_0 == *fields);
                        assert(decreases_to!(*fields => fields@));
                        assert(decreases_to!(fields@ => fields@[i as int]));
                        assert(decreases_to!(fields@[i as int] => fields@[i as int].1));
                    }
                }
                out.push((fields[i].0.clone(), clone_value(&fields[i].1)));
                i = i + 1;
            }
            GenValue::Object(out)
        },
        GenValue::Promise(s) => GenValue::Promise(s.clone()),
    }
}


/// A promise's runtime state: resolved or pending, with its value.
pub struct PromiseState {
    pub resolved: bool,
    pub value: Option<GenValue>,
}

/// A request's private execution state: an operand stack, variables and
/// promises as append-only runs where the latest binding of a name wins.
pub struct IsolatedHeap {
    pub stack: Vec<GenValue>,
    pub variables: Vec<(String, GenValue)>,
    pub promises: Vec<(String, PromiseState)>,
}

/// The position of the latest binding of the name, if any.
pub open spec fn latest_of<T>(pairs: Seq<(String, T)>, name: Seq<char>) -> Option<int> {
    if exists|j: int| 0 <= j < pairs.len() && (#[trigger] pairs[j]).0@ == name {
        Option::Some(choose|j: int| 0 <= j < pairs.len()
            && (#[trigger] pairs[j]).0@ == name
            && (forall|k: int| j < k < pairs.len() ==> (#[trigger] pairs[k]).0@ != name))
    } else {
        Option::None
    }
}

/// Scan a run of bindings from the end for the latest one under the name.
fn find_latest<T>(pairs: &Vec<(String, T)>, name: &str) -> (r: Option<usize>)
    ensures
        match r {
            Option::Some(j) => j < pairs@.len() && pairs@[j as int].0@ == name@
                && (forall|k: int| j < k < pairs@.len()
                    ==> (#[trigger] pairs@[k]).0@ != name@),
            Option::None => forall|j: int| 0 <= j < pairs@.len()
                ==> (#[trigger] pairs@[j]).0@ != name@,
        },
{
    let mut i: usize = pairs.len();
    while i > 0
        invariant
            i <= pairs@.len(),
            forall|k: int| i <= k < pairs@.len() ==> (#[trigger] pairs@[k]).0@ != name@,
        decreases i,
    {
        i = i - 1;
        if crate::interpreter::str_eq(pairs[i].0.as_str(), name) {
            return Some(i);
        }
    }
    None
}

impl IsolatedHeap {
    /// A fresh heap: empty stack, no variables, no promises.
    pub fn new() -> (r: Self)
        ensures
            r.stack@.len() == 0,
            r.variables@.len() == 0,
            r.promises@.len() == 0,
    {
        IsolatedHeap { stack: Vec::new(), variables: Vec::new(), promises: Vec::new() }
    }

    /// Push a value onto the operand stack.
    pub fn push(&mut self, value: GenValue)
        ensures
            final(self).stack@ == old(self).stack@.push(value),
            final(self).variables == old(self).variables,
            final(self).promises == old(self).promises,
    {
        self.stack.push(value);
    }

    /// Pop the top of the operand stack; an empty stack is an underflow.
    pub fn pop(&mut self) -> (r: Result<GenValue, String>)
        ensures
            final(self).variables == old(self).variables,
            final(self).promises == old(self).promises,
            match r {
                Result::Ok(v) => old(self).stack@.len() > 0
                    && v == old(self).stack@.last()
                    && final(self).stack@ == old(self).stack@.drop_last(),
                Result::Err(_) => old(self).stack@.len() == 0
                    && final(self).stack@ == old(self).stack@,
            },
    {
        match self.stack.pop() {
            Some(v) => {
                proof {
                    assert(self.stack@ =~= old(self).stack@.drop_last());
                }
                Ok(v)
            },
            None => {
                proof {
                    assert(self.stack@ =~= old(self).stack@);
                }
                Err("Stack underflow".to_owned())
            },
        }
    }

    /// Bind a variable; the new binding shadows any earlier one.
    pub fn set_variable(&mut self, name: String, value: GenValue)
        ensures
            final(self).variables@ == old(self).variables@.push((name, value)),
            final(self).stack == old(self).stack,
            final(self).promises == old(self).promises,
    {
        self.variables.push((name, value));
    }

    /// The latest value bound to the name, if any.
    pub fn get_variable(&self, name: &str) -> (r: Option<&GenValue>)
        ensures
            match r {
                Option::Some(v) => exists|j: int| 0 <= j < self.variables@.len()
                    && (#[trigger] self.variables@[j]).0@ == name@
                    && (forall|k: int| j < k < self.variables@.len()
                        ==> (#[trigger] self.variables@[k]).0@ != name@)
                    && v == &self.variables@[j].1,
                Option::None => forall|j: int| 0 <= j < self.variables@.len()
                    ==> (#[trigger] self.variables@[j]).0@ != name@,
            },
    {
        match find_latest(&self.variables, name) {
            Some(j) => Some(&self.variables[j].1),
            None => None,
        }
    }

    /// Record a fresh, unresolved promise under the handle.
    pub fn create_promise(&mut self, id: String) -> (r: Result<(), String>)
        ensures
            r is Ok,
            final(self).promises@ == old(self).promises@.push(
                (id, PromiseState { resolved: false, value: Option::None })),
            final(self).stack == old(self).stack,
            final(self).variables == old(self).variables,
    {
        self.promises.push((id, PromiseState { resolved: false, value: None }));
        Ok(())
    }

    /// Resolve a recorded promise with a value; an unknown handle is an
    /// error and changes nothing.
    pub fn resolve_promise(&mut self, id: &str, value: GenValue) -> (r: Result<(), String>)
        ensures
            final(self).stack == old(self).stack,
            final(self).variables == old(self).variables,
            match r {
                Result::Ok(()) => (exists|j: int| 0 <= j < old(self).promises@.len()
                    && (#[trigger] old(self).promises@[j]).0@ == id@)
                    && final(self).promises@ == old(self).promises@.push(
                        (final(self).promises@.last().0,
                            PromiseState { resolved: true, value: Option::Some(value) })),
                Result::Err(_) => (forall|j: int| 0 <= j < old(self).promises@.len()
                    ==> (#[trigger] old(self).promises@[j]).0@ != id@)
                    && final(self).promises == old(self).promises,
            },
    {
        match find_latest(&self.promises, id) {
            Some(_) => {
                self.promises.push((id.to_owned(),
                    PromiseState { resolved: true, value: Some(value) }));
                Ok(())
            },
            None => {
                let mut message = "Promise not found: ".to_owned();
                message.append(id);
                Err(message)
            },
        }
    }

    /// Whether the latest record of the handle is resolved.
    pub fn is_promise_resolved(&self, id: &str) -> (r: bool)
        ensures
            r ==> exists|j: int| 0 <= j < self.promises@.len()
                && (#[trigger] self.promises@[j]).0@ == id@
                && self.promises@[j].1.resolved
                && (forall|k: int| j < k < self.promises@.len()
                    ==> (#[trigger] self.promises@[k]).0@ != id@),
    {
        match find_latest(&self.promises, id) {
            Some(j) => self.promises[j].1.resolved,
            None => false,
        }
    }

    /// The latest recorded value of the handle, if any.
    pub fn get_promise_value(&self, id: &str) -> (r: Option<&GenValue>)
        ensures
            r matches Option::Some(v) ==> exists|j: int| 0 <= j < self.promises@.len()
                && (#[trigger] self.promises@[j]).0@ == id@
                && self.promises@[j].1.value == Option::Some(*v),
    {
        match find_latest(&self.promises, id) {
            Some(j) => match &self.promises[j].1.value {
                Some(v) => Some(v),
                None => None,
            },
            None => None,
        }
    }
}

/// Whether a value counts as true for a conditional jump: null, false and
/// numeric zero do not, everything else does.
pub open spec fn gen_truthy(v: GenValue) -> bool {
    match v {
        GenValue::Null => false,
        GenValue::Boolean(b) => b,
        GenValue::Number(n) => !crate::floats::f64_is_zero(n),
        _ => true,
    }
}

/// The machine that runs a compiled program.
pub struct VirtualMachine {
    pub program: BytecodeProgram,
}

impl VirtualMachine {
    /// A machine over the program.
    pub fn new(program: BytecodeProgram) -> (r: Self)
        ensures
            r.program == program,
    {
        VirtualMachine { program }
    }

    /// Run the program from the given instruction on the heap, to the end
    /// of the stream or an explicit return, whose value is the stack top.
    /// Starting at or beyond the end of the stream returns at once with
    /// the heap untouched. A run longer than the step budget is cut off
    /// with an error.
    pub fn execute(&self, start_ip: usize, heap: &mut IsolatedHeap)
        -> (r: Result<Option<GenValue>, String>)
        ensures
            start_ip >= self.program.instructions@.len()
                ==> (r is Ok && *final(heap) == *old(heap)
                    && (old(heap).stack@.len() == 0 ==> r == Result::<Option<GenValue>, String>::Ok(Option::None))),
    {
        let mut ip = start_ip;
        let mut fuel: u64 = 0xFFFF_FFFF;
        while ip < self.program.instructions.len()
            invariant
                start_ip >= self.program.instructions@.len() ==> *heap == *old(heap),
                start_ip >= self.program.instructions@.len() ==> ip == start_ip,
            decreases fuel,
        {
            if fuel == 0 {
                return Err("step budget exhausted".to_owned());
            }
            fuel = fuel - 1;
            match &self.program.instructions[ip] {
                GenInstruction::LoadConstant(value) => {
                    heap.push(clone_value(value));
                },
                GenInstruction::LoadVariable(name) => {
                    let found = match heap.get_variable(name.as_str()) {
                        Some(value) => Some(clone_value(value)),
                        None => None,
                    };
                    match found {
                        Some(value) => heap.push(value),
                        None => {
                            let mut message = "Variable not found: ".to_owned();
                            message.append(name.as_str());
                            return Err(message);
                        },
                    }
                },
                GenInstruction::StoreVariable(name) => {
                    let value = heap.pop()?;
                    heap.set_variable(name.clone(), value);
                },
                GenInstruction::Add => {
                    let b = heap.pop()?;
                    let a = heap.pop()?;
                    let result = add_values(&a, &b)?;
                    heap.push(result);
                },
                GenInstruction::Subtract => {
                    let b = heap.pop()?;
                    let a = heap.pop()?;
                    let result = subtract_values(&a, &b)?;
                    heap.push(result);
                },
                GenInstruction::Multiply => {
                    let b = heap.pop()?;
                    let a = heap.pop()?;
                    let result = multiply_values(&a, &b)?;
                    heap.push(result);
                },
                GenInstruction::Divide => {
                    let b = heap.pop()?;
                    let a = heap.pop()?;
                    let result = divide_values(&a, &b)?;
                    heap.push(result);
                },
                GenInstruction::CreateObject => {
                    heap.push(GenValue::Object(Vec::new()));
                },
                GenInstruction::SetProperty(key) => {
                    let value = heap.pop()?;
                    let object = heap.pop()?;
                    match object {
                        GenValue::Object(mut fields) => {
                            fields.push((key.clone(), value));
                            heap.push(GenValue::Object(fields));
                        },
                        _ => {
                            return Err("Cannot set property on non-object".to_owned());
                        },
                    }
                },
                GenInstruction::GetProperty(key) => {
                    let object = heap.pop()?;
                    match object {
                        GenValue::Object(fields) => {
                            let found = match find_latest(&fields, key.as_str()) {
                                Some(j) => clone_value(&fields[j].1),
                                None => GenValue::Null,
                            };
                            heap.push(found);
                        },
                        _ => {
                            return Err("Cannot get property from non-object".to_owned());
                        },
                    }
                },
                GenInstruction::CreateArray => {
                    heap.push(GenValue::Array(Vec::new()));
                },
                GenInstruction::AppendArray => {
                    let value = heap.pop()?;
                    let array = heap.pop()?;
                    match array {
                        GenValue::Array(mut items) => {
                            items.push(value);
                            heap.push(GenValue::Array(items));
                        },
                        _ => {
                            return Err("Cannot append to non-array".to_owned());
                        },
                    }
                },
                GenInstruction::CreatePromise(id) => {
                    heap.create_promise(id.clone())?;
                    heap.push(GenValue::Promise(id.clone()));
                },
                GenInstruction::AwaitPromise(id) => {
                    let resolved = heap.is_promise_resolved(id.as_str());
                    let value = if resolved {
                        match heap.get_promise_value(id.as_str()) {
                            Some(v) => clone_value(v),
                            None => GenValue::Null,
                        }
                    } else {
                        GenValue::Null
                    };
                    heap.push(value);
                },
                GenInstruction::CallHttp { method, url, .. } => {
                    let mut response = "{\"simulated_response\": \"".to_owned();
                    response.append(method.as_str());
                    response.append(":");
                    response.append(url.as_str());
                    response.append("\"}");
                    heap.push(GenValue::String(response));
                },
                GenInstruction::RegisterEndpoint { .. } => {},
                GenInstruction::Return => {
                    if heap.stack.len() > 0 {
                        let top = clone_value(&heap.stack[heap.stack.len() - 1]);
                        return Ok(Some(top));
                    }
                    return Ok(None);
                },
            }
            ip = ip + 1;
        }
        if heap.stack.len() > 0 {
            let top = clone_value(&heap.stack[heap.stack.len() - 1]);
            return Ok(Some(top));
        }
        Ok(None)
    }
}

/// Addition: numbers add as doubles, strings concatenate, anything else
/// is an error.
pub fn add_values(a: &GenValue, b: &GenValue) -> (r: Result<GenValue, String>)
    ensures
        a matches GenValue::Number(x)
            ==> (b matches GenValue::Number(y)
                ==> r == Result::<GenValue, String>::Ok(
                    GenValue::Number(crate::floats::f64_add_of(*x, *y)))),
        a matches GenValue::String(x)
            ==> (b matches GenValue::String(y)
                ==> (r matches Result::Ok(v) && v matches GenValue::String(s)
                    && s@ == x@ + y@)),
        !((a is Number && b is Number) || (a is String && b is String)) ==> r is Err,
{
    match (a, b) {
        (GenValue::Number(x), GenValue::Number(y)) =>
            Ok(GenValue::Number(crate::floats::f64_add(*x, *y))),
        (GenValue::String(x), GenValue::String(y)) => {
            let mut out = x.clone();
            out.append(y.as_str());
            Ok(GenValue::String(out))
        },
        _ => Err("Cannot add values of different types".to_owned()),
    }
}

/// Subtraction of two numbers as doubles; anything else is an error.
pub fn subtract_values(a: &GenValue, b: &GenValue) -> (r: Result<GenValue, String>)
    ensures
        a matches GenValue::Number(x)
            ==> (b matches GenValue::Number(y)
                ==> r == Result::<GenValue, String>::Ok(
                    GenValue::Number(crate::floats::f64_sub_of(*x, *y)))),
        !(a is Number && b is Number) ==> r is Err,
{
    match (a, b) {
        (GenValue::Number(x), GenValue::Number(y)) =>
            Ok(GenValue::Number(crate::floats::f64_sub(*x, *y))),
        _ => Err("Cannot subtract non-numeric values".to_owned()),
    }
}

/// Multiplication of two numbers as doubles; anything else is an error.
pub fn multiply_values(a: &GenValue, b: &GenValue) -> (r: Result<GenValue, String>)
    ensures
        a matches GenValue::Number(x)
            ==> (b matches GenValue::Number(y)
                ==> r == Result::<GenValue, String>::Ok(
                    GenValue::Number(crate::floats::f64_mul_of(*x, *y)))),
        !(a is Number && b is Number) ==> r is Err,
{
    match (a, b) {
        (GenValue::Number(x), GenValue::Number(y)) =>
            Ok(GenValue::Number(crate::floats::f64_mul(*x, *y))),
        _ => Err("Cannot multiply non-numeric values".to_owned()),
    }
}

/// Division of two numbers as doubles; a zero divisor and anything but
/// numbers are errors.
pub fn divide_values(a: &GenValue, b: &GenValue) -> (r: Result<GenValue, String>)
    ensures
        a matches GenValue::Number(x)
            ==> (b matches GenValue::Number(y)
                ==> (if crate::floats::f64_is_zero(*y) {
                    r is Err
                } else {
                    r == Result::<GenValue, String>::Ok(
                        GenValue::Number(crate::floats::f64_div_of(*x, *y)))
                })),
        !(a is Number && b is Number) ==> r is Err,
{
    match (a, b) {
        (GenValue::Number(x), GenValue::Number(y)) => {
            if crate::floats::f64_is_zero_exec(*y) {
                Err("Division by zero".to_owned())
            } else {
                Ok(GenValue::Number(crate::floats::f64_div(*x, *y)))
            }
        },
        _ => Err("Cannot divide non-numeric values".to_owned()),
    }
}

} // verus!
