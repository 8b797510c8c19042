//! Semantic analysis: symbol collection over the AST, the dependency graph,
//! topological ordering, promise-propagation type inference, and program
//! validation.

use vstd::prelude::*;
use vstd::string::StringExecFns;
use crate::ast::{AstNode, BinaryOp, HttpMethod, UnaryOp};

verus! {

/// A compile-time type in the non-strict lattice.
#[derive(Debug, PartialEq)]
pub enum Type {
    Number,
    String,
    Boolean,
    Null,
    Array(Box<Type>),
    Object(Vec<(String, Type)>),
    Promise(Option<Box<Type>>),
    Any,
}


/// The shape of a type, with object keys as character sequences: what a
/// type means, independent of how its strings are allocated.
pub ghost enum TypeV {
    NumberV,
    StringV,
    BooleanV,
    NullV,
    ArrayV(Box<TypeV>),
    ObjectV(Seq<(Seq<char>, TypeV)>),
    PromiseV(Option<Box<TypeV>>),
    AnyV,
}

/// The shape of a type.
pub open spec fn type_view(t: Type) -> TypeV
    decreases t,
{
    match t {
        Type::Number => TypeV::NumberV,
        Type::String => TypeV::StringV,
        Type::Boolean => TypeV::BooleanV,
        Type::Null => TypeV::NullV,
        Type::Array(inner) => TypeV::ArrayV(Box::new(type_view(*inner))),
        Type::Object(fields) => TypeV::ObjectV(views_of_type_fields(fields@)),
        Type::Promise(inner) => TypeV::PromiseV(match inner {
            Option::Some(t2) => Option::Some(Box::new(type_view(*t2))),
            Option::None => Option::None,
        }),
        Type::Any => TypeV::AnyV,
    }
}

/// The shapes of a run of keyed types, in order.
pub open spec fn views_of_type_fields(fields: Seq<(String, Type)>) -> Seq<(Seq<char>, TypeV)>
    decreases fields,
{
    if fields.len() == 0 {
        Seq::empty()
    } else {
        views_of_type_fields(fields.drop_last())
            .push((fields.last().0@, type_view(fields.last().1)))
    }
}

/// A type and its shape agree on the outermost variant.
pub proof fn lemma_type_view_variants(t: Type)
    ensures
        (type_view(t) is NumberV) == (t is Number),
        (type_view(t) is StringV) == (t is String),
        (type_view(t) is BooleanV) == (t is Boolean),
        (type_view(t) is NullV) == (t is Null),
        (type_view(t) is ArrayV) == (t is Array),
        (type_view(t) is ObjectV) == (t is Object),
        (type_view(t) is PromiseV) == (t is Promise),
        (type_view(t) is AnyV) == (t is Any),
        t matches Type::Promise(inner)
            ==> (type_view(t) matches TypeV::PromiseV(iv)
                && (iv is Some) == (inner is Some)),
{
    if t is Number {
    } else if t is String {
    } else if t is Boolean {
    } else if t is Null {
    } else if t is Array {
    } else if t is Object {
    } else if t is Promise {
    } else {
    }
}

impl Clone for Type {
    /// A deep copy with the same shape.
    fn clone(&self) -> (r: Self)
        ensures
            type_view(r) == type_view(*self),
        decreases self,
    {
        match self {
            Type::Number => Type::Number,
            Type::String => Type::String,
            Type::Boolean => Type::Boolean,
            Type::Null => Type::Null,
            Type::Array(inner) => Type::Array(Box::new((**inner).clone())),
            Type::Object(fields) => {
                let mut out: Vec<(String, Type)> = Vec::new();
                let mut i: usize = 0;
                while i < fields.len()
                    invariant
                        i <= fields@.len(),
                        (*self == Type::Object(*fields)),
                        views_of_type_fields(out@) == views_of_type_fields(fields@.take(i as int)),
                    decreases fields@.len() - i,
                {
                    proof {
                        assert(decreases_to!(*self => fields@[i as int].1)) by {
                            assert(decreases_to!(*self => self->Object_0));
                            assert(self->Object_0 == *fields);
                            assert(decreases_to!(*fields => fields@));
                            assert(decreases_to!(fields@ => fields@[i as int]));
                            assert(decreases_to!(fields@[i as int] => fields@[i as int].1));
                        }
                    }
                    let key = fields[i].0.clone();
                    let value = fields[i].1.clone();
                    let ghost preout = out@;
                    out.push((key, value));
                    proof {
                        assert(fields@.take(i as int + 1).drop_last() =~= fields@.take(i as int));
                        assert(fields@.take(i as int + 1).last() == fields@[i as int]);
                        assert(out@.drop_last() =~= preout);
                        assert(out@.last() == (key, value));
                        assert(views_of_type_fields(out@)
                            == views_of_type_fields(preout).push((key@, type_view(value))));
                        assert(views_of_type_fields(fields@.take(i as int + 1))
                            == views_of_type_fields(fields@.take(i as int))
                                .push((fields@[i as int].0@, type_view(fields@[i as int].1))));
                        assert(views_of_type_fields(out@)
                            == views_of_type_fields(fields@.take(i as int + 1)));
                    }
                    i = i + 1;
                }
                proof {
                    assert(fields@.take(fields@.len() as int) =~= fields@);
                }
                Type::Object(out)
            },
            Type::Promise(inner) => match inner {
                Some(t2) => Type::Promise(Some(Box::new((**t2).clone()))),
                None => Type::Promise(None),
            },
            Type::Any => Type::Any,
        }
    }
}

/// Whether a type is a promise.
pub open spec fn is_promise(t: Type) -> bool {
    t matches Type::Promise(_)
}

/// The rendering of a type: scalar names, `array<T>`, `object`,
/// `promise<T>` with `promise<any>` for an absent inner type.
pub open spec fn type_string_of(t: Type) -> Seq<char>
    decreases t,
{
    match t {
        Type::Number => "number"@,
        Type::String => "string"@,
        Type::Boolean => "boolean"@,
        Type::Null => "null"@,
        Type::Array(inner) => "array<"@ + type_string_of(*inner) + ">"@,
        Type::Object(_) => "object"@,
        Type::Promise(inner) => match inner {
            Option::Some(t2) => "promise<"@ + type_string_of(*t2) + ">"@,
            Option::None => "promise<any>"@,
        },
        Type::Any => "any"@,
    }
}

impl Type {
    /// Render the type name for diagnostics.
    pub fn describe(&self) -> (r: String)
        ensures
            r@ == type_string_of(*self),
        decreases self,
    {
        match self {
            Type::Number => "number".to_owned(),
            Type::String => "string".to_owned(),
            Type::Boolean => "boolean".to_owned(),
            Type::Null => "null".to_owned(),
            Type::Array(inner) => {
                let mut out = "array<".to_owned();
                out.append((**inner).describe().as_str());
                out.append(">");
                out
            },
            Type::Object(_) => "object".to_owned(),
            Type::Promise(inner) => match inner {
                Some(t2) => {
                    let mut out = "promise<".to_owned();
                    out.append((**t2).describe().as_str());
                    out.append(">");
                    out
                },
                None => "promise<any>".to_owned(),
            },
            Type::Any => "any".to_owned(),
        }
    }
}

/// The unit of analysis: a name, its inferred type, the names it reads, the
/// names that read it, the resolution mark, its definition line, and the
/// expression it came from.
#[derive(Debug, Clone)]
pub struct Symbol {
    pub name: String,
    pub symbol_type: Type,
    pub is_resolved: bool,
    pub dependencies: Vec<String>,
    pub dependents: Vec<String>,
    pub definition_line: usize,
    pub ast_node: Option<AstNode>,
}

impl Symbol {
    /// A fresh, unresolved symbol with no recorded edges.
    pub fn new(name: String, symbol_type: Type, definition_line: usize) -> (r: Self)
        ensures
            r.name == name,
            r.symbol_type == symbol_type,
            !r.is_resolved,
            r.dependencies@.len() == 0,
            r.dependents@.len() == 0,
            r.definition_line == definition_line,
            r.ast_node is None,
    {
        Symbol {
            name,
            symbol_type,
            is_resolved: false,
            dependencies: Vec::new(),
            dependents: Vec::new(),
            definition_line,
            ast_node: None,
        }
    }

    /// The set of names this symbol reads.
    pub open spec fn deps_set(self) -> Set<Seq<char>> {
        Set::new(|d: Seq<char>| exists|i: int| 0 <= i < self.dependencies@.len()
            && self.dependencies@[i]@ == d)
    }
}

/// Errors the analyzer reports.
#[derive(Debug)]
pub enum AnalyzerError {
    /// The names caught in one or more dependency cycles (or hanging on
    /// names that no symbol defines).
    CircularDependency(Vec<String>),
    UndefinedSymbol { name: String, line: usize },
    TypeError { expected: String, found: String, line: usize },
    DuplicateEndpoint { name: String, method: String, path: String, line: usize },
}

/// The symbol table: symbols under distinct names, plus the resolution
/// order once dependencies have been resolved.
#[derive(Debug, Clone)]
pub struct SymbolTable {
    pub symbols: Vec<Symbol>,
    pub resolution_order: Vec<String>,
}

impl SymbolTable {
    /// Names are distinct.
    pub open spec fn wf(self) -> bool {
        forall|i: int, j: int| 0 <= i < j < self.symbols@.len()
            ==> (#[trigger] self.symbols@[i]).name@ != (#[trigger] self.symbols@[j]).name@
    }

    /// Whether the table holds a symbol under the name.
    pub open spec fn spec_has(self, name: Seq<char>) -> bool {
        exists|i: int| 0 <= i < self.symbols@.len()
            && (#[trigger] self.symbols@[i]).name@ == name
    }

    /// An empty table.
    pub fn new() -> (r: Self)
        ensures
            r.wf(),
            r.symbols@.len() == 0,
            r.resolution_order@.len() == 0,
    {
        SymbolTable { symbols: Vec::new(), resolution_order: Vec::new() }
    }

    /// Insert a symbol, replacing any symbol already held under its name;
    /// a later field with a key already seen overwrites the earlier one.
    pub fn add_symbol(&mut self, symbol: Symbol)
        requires
            old(self).wf(),
        ensures
            final(self).wf(),
            final(self).spec_has(symbol.name@),
            final(self).resolution_order == old(self).resolution_order,
            old(self).spec_has(symbol.name@) ==> exists|k: int|
                0 <= k < old(self).symbols@.len()
                && (#[trigger] old(self).symbols@[k]).name@ == symbol.name@
                && final(self).symbols@ == old(self).symbols@.update(k, symbol),
            !old(self).spec_has(symbol.name@)
                ==> final(self).symbols@ == old(self).symbols@.push(symbol),
    {
        let mut i: usize = 0;
        while i < self.symbols.len()
            invariant
                i <= self.symbols@.len(),
                *self == *old(self),
                old(self).wf(),
                forall|j: int| 0 <= j < i
                    ==> (#[trigger] self.symbols@[j]).name@ != symbol.name@,
            decreases self.symbols@.len() - i,
        {
            if crate::interpreter::str_eq(self.symbols[i].name.as_str(), symbol.name.as_str()) {
                let name_probe = symbol.name.clone();
                self.symbols.set(i, symbol);
                proof {
                    assert(self.symbols@[i as int].name@ == name_probe@);
                    assert(old(self).symbols@[i as int].name@ == name_probe@);
                    assert(self.symbols@ =~= old(self).symbols@.update(i as int,
                        self.symbols@[i as int]));
                    assert forall|a: int, b: int| 0 <= a < b < self.symbols@.len()
                        implies (#[trigger] self.symbols@[a]).name@
                            != (#[trigger] self.symbols@[b]).name@ by {
                        if a != i && b != i {
                            assert(old(self).symbols@[a].name@ != old(self).symbols@[b].name@);
                        }
                    }
                }
                return;
            }
            i = i + 1;
        }
        proof {
            if self.spec_has(symbol.name@) {
                let w = choose|w: int| 0 <= w < self.symbols@.len()
                    && (#[trigger] self.symbols@[w]).name@ == symbol.name@;
                assert(false);
            }
        }
        self.symbols.push(symbol);
        proof {
            assert(self.symbols@.last().name@ == symbol.name@);
            assert forall|a: int, b: int| 0 <= a < b < self.symbols@.len()
                implies (#[trigger] self.symbols@[a]).name@
                    != (#[trigger] self.symbols@[b]).name@ by {
                if b < self.symbols@.len() - 1 {
                    assert(old(self).symbols@[a].name@ != old(self).symbols@[b].name@);
                }
            }
        }
    }

    /// Find a symbol by name.
    pub fn get_symbol(&self, name: &str) -> (r: Option<&Symbol>)
        ensures
            match r {
                Option::Some(s) => self.spec_has(name@) && s.name@ == name@
                    && exists|i: int| 0 <= i < self.symbols@.len()
                        && self.symbols@[i] == *s,
                Option::None => !self.spec_has(name@),
            },
    {
        let mut i: usize = 0;
        while i < self.symbols.len()
            invariant
                i <= self.symbols@.len(),
                forall|j: int| 0 <= j < i ==> (#[trigger] self.symbols@[j]).name@ != name@,
            decreases self.symbols@.len() - i,
        {
            if crate::interpreter::str_eq(self.symbols[i].name.as_str(), name) {
                return Some(&self.symbols[i]);
            }
            i = i + 1;
        }
        None
    }

    /// Record that `dependent` reads `dependency`: the name is added to the
    /// dependent's dependency set, and the inverse edge to the dependency's
    /// dependent set, each only where that symbol exists.
    pub fn add_dependency(&mut self, dependent: &str, dependency: &str)
        requires
            old(self).wf(),
        ensures
            final(self).wf(),
            final(self).resolution_order == old(self).resolution_order,
            final(self).symbols@.len() == old(self).symbols@.len(),
            forall|j: int| 0 <= j < final(self).symbols@.len()
                ==> same_but_edges(old(self).symbols@[j],
                    #[trigger] final(self).symbols@[j]),
            forall|j: int| 0 <= j < final(self).symbols@.len()
                ==> pushed_name(old(self).symbols@[j].dependents@,
                    (#[trigger] final(self).symbols@[j]).dependents@, dependent@),
            forall|j: int| 0 <= j < final(self).symbols@.len()
                ==> pushed_name(old(self).symbols@[j].dependencies@,
                    (#[trigger] final(self).symbols@[j]).dependencies@, dependency@),
            forall|j: int| 0 <= j < final(self).symbols@.len()
                && (#[trigger] final(self).symbols@[j]).name@ != dependency@
                ==> final(self).symbols@[j].dependents
                    == old(self).symbols@[j].dependents,
            forall|j: int| 0 <= j < final(self).symbols@.len()
                && (#[trigger] final(self).symbols@[j]).name@ != dependent@
                ==> final(self).symbols@[j].dependencies
                    == old(self).symbols@[j].dependencies,
            forall|j: int| 0 <= j < final(self).symbols@.len()
                && (#[trigger] final(self).symbols@[j]).name@ == dependency@
                ==> exists|d: int| 0 <= d < final(self).symbols@[j].dependents@.len()
                    && (#[trigger] final(self).symbols@[j].dependents@[d])@ == dependent@,
            forall|j: int| 0 <= j < final(self).symbols@.len()
                && (#[trigger] final(self).symbols@[j]).name@ == dependent@
                ==> exists|d: int| 0 <= d < final(self).symbols@[j].dependencies@.len()
                    && (#[trigger] final(self).symbols@[j].dependencies@[d])@ == dependency@,
    {
        let mut i: usize = 0;
        let n = self.symbols.len();
        while i < n
            invariant
                i <= n,
                n == self.symbols@.len(),
                self.wf(),
                self.resolution_order == old(self).resolution_order,
                forall|j: int| 0 <= j < self.symbols@.len()
                    ==> same_but_edges(old(self).symbols@[j],
                        #[trigger] self.symbols@[j]),
                forall|j: int| 0 <= j < self.symbols@.len()
                    ==> (#[trigger] self.symbols@[j]).dependencies
                        == old(self).symbols@[j].dependencies,
                forall|j: int| 0 <= j < self.symbols@.len()
                    ==> pushed_name(old(self).symbols@[j].dependents@,
                        (#[trigger] self.symbols@[j]).dependents@, dependent@),
                forall|j: int| 0 <= j < self.symbols@.len()
                    && (#[trigger] self.symbols@[j]).name@ != dependency@
                    ==> self.symbols@[j].dependents == old(self).symbols@[j].dependents,
                forall|j: int| 0 <= j < i
                    && (#[trigger] self.symbols@[j]).name@ == dependency@
                    ==> exists|d: int| 0 <= d < self.symbols@[j].dependents@.len()
                        && (#[trigger] self.symbols@[j].dependents@[d])@ == dependent@,
            decreases n - i,
        {
            if crate::interpreter::str_eq(self.symbols[i].name.as_str(), dependency) {
                let entry = self.symbols[i].dependents.contains_name(dependent);
                if !entry {
                    let ghost pre = self.symbols@;
                    let mut taken = Symbol::new(String::new(), Type::Any, 0);
                    self.symbols.set_and_swap(i, &mut taken);
                    let Symbol { name, symbol_type, is_resolved, dependencies,
                        mut dependents, definition_line, ast_node } = taken;
                    dependents.push(dependent.to_owned());
                    self.symbols.set(i, Symbol {
                        name,
                        symbol_type,
                        is_resolved,
                        dependencies,
                        dependents,
                        definition_line,
                        ast_node,
                    });
                    proof {
                        assert(self.symbols@[i as int].name@ == pre[i as int].name@);
                        assert forall|a: int, b: int| 0 <= a < b < self.symbols@.len()
                            implies (#[trigger] self.symbols@[a]).name@
                                != (#[trigger] self.symbols@[b]).name@ by {
                            assert(pre[a].name@ != pre[b].name@);
                        }
                        assert forall|j: int| 0 <= j < self.symbols@.len()
                            implies same_but_edges(old(self).symbols@[j],
                                #[trigger] self.symbols@[j])
                                && self.symbols@[j].dependencies
                                    == old(self).symbols@[j].dependencies
                                && pushed_name(old(self).symbols@[j].dependents@,
                                    self.symbols@[j].dependents@, dependent@) by {
                            if j != i as int {
                                assert(self.symbols@[j] == pre[j]);
                            } else {
                                assert(self.symbols@[j].dependents@.drop_last()
                                    =~= pre[j].dependents@);
                            }
                        }
                        let dn = self.symbols@[i as int].dependents@.len() - 1;
                        assert((self.symbols@[i as int].dependents@[dn])@ == dependent@);
                        assert forall|j: int| 0 <= j < i + 1
                            && (#[trigger] self.symbols@[j]).name@ == dependency@
                            implies exists|d: int|
                                0 <= d < self.symbols@[j].dependents@.len()
                                && (#[trigger] self.symbols@[j].dependents@[d])@
                                    == dependent@ by {
                            if j != i as int {
                                assert(self.symbols@[j] == pre[j]);
                            }
                        }
                    }
                } else {
                    proof {
                        let d0 = choose|d0: int|
                            0 <= d0 < self.symbols@[i as int].dependents@.len()
                            && (#[trigger] self.symbols@[i as int].dependents@[d0])@
                                == dependent@;
                        assert(0 <= d0 < self.symbols@[i as int].dependents@.len()
                            && (self.symbols@[i as int].dependents@[d0])@ == dependent@);
                    }
                }
            }
            i = i + 1;
        }
        let mut k: usize = 0;
        let n2 = self.symbols.len();
        while k < n2
            invariant
                k <= n2,
                n2 == self.symbols@.len(),
                self.wf(),
                self.resolution_order == old(self).resolution_order,
                forall|j: int| 0 <= j < self.symbols@.len()
                    ==> same_but_edges(old(self).symbols@[j],
                        #[trigger] self.symbols@[j]),
                forall|j: int| 0 <= j < self.symbols@.len()
                    ==> pushed_name(old(self).symbols@[j].dependents@,
                        (#[trigger] self.symbols@[j]).dependents@, dependent@),
                forall|j: int| 0 <= j < self.symbols@.len()
                    && (#[trigger] self.symbols@[j]).name@ != dependency@
                    ==> self.symbols@[j].dependents == old(self).symbols@[j].dependents,
                forall|j: int| 0 <= j < self.symbols@.len()
                    && (#[trigger] self.symbols@[j]).name@ == dependency@
                    ==> exists|d: int| 0 <= d < self.symbols@[j].dependents@.len()
                        && (#[trigger] self.symbols@[j].dependents@[d])@ == dependent@,
                forall|j: int| 0 <= j < self.symbols@.len()
                    ==> pushed_name(old(self).symbols@[j].dependencies@,
                        (#[trigger] self.symbols@[j]).dependencies@, dependency@),
                forall|j: int| 0 <= j < self.symbols@.len()
                    && (#[trigger] self.symbols@[j]).name@ != dependent@
                    ==> self.symbols@[j].dependencies
                        == old(self).symbols@[j].dependencies,
                forall|j: int| 0 <= j < k
                    && (#[trigger] self.symbols@[j]).name@ == dependent@
                    ==> exists|d: int| 0 <= d < self.symbols@[j].dependencies@.len()
                        && (#[trigger] self.symbols@[j].dependencies@[d])@ == dependency@,
            decreases n2 - k,
        {
            if crate::interpreter::str_eq(self.symbols[k].name.as_str(), dependent) {
                let entry = self.symbols[k].dependencies.contains_name(dependency);
                if !entry {
                    let ghost pre = self.symbols@;
                    let mut taken = Symbol::new(String::new(), Type::Any, 0);
                    self.symbols.set_and_swap(k, &mut taken);
                    let Symbol { name, symbol_type, is_resolved, mut dependencies,
                        dependents, definition_line, ast_node } = taken;
                    dependencies.push(dependency.to_owned());
                    self.symbols.set(k, Symbol {
                        name,
                        symbol_type,
                        is_resolved,
                        dependencies,
                        dependents,
                        definition_line,
                        ast_node,
                    });
                    proof {
                        assert(self.symbols@[k as int].name@ == pre[k as int].name@);
                        assert forall|a: int, b: int| 0 <= a < b < self.symbols@.len()
                            implies (#[trigger] self.symbols@[a]).name@
                                != (#[trigger] self.symbols@[b]).name@ by {
                            assert(pre[a].name@ != pre[b].name@);
                        }
                        assert forall|j: int| 0 <= j < self.symbols@.len()
                            implies same_but_edges(old(self).symbols@[j],
                                #[trigger] self.symbols@[j])
                                && self.symbols@[j].dependents == pre[j].dependents
                                && pushed_name(old(self).symbols@[j].dependencies@,
                                    self.symbols@[j].dependencies@, dependency@) by {
                            if j != k as int {
                                assert(self.symbols@[j] == pre[j]);
                            } else {
                                assert(self.symbols@[j].dependencies@.drop_last()
                                    =~= pre[j].dependencies@);
                            }
                        }
                        let dn = self.symbols@[k as int].dependencies@.len() - 1;
                        assert((self.symbols@[k as int].dependencies@[dn])@ == dependency@);
                        assert forall|j: int| 0 <= j < self.symbols@.len()
                            && (#[trigger] self.symbols@[j]).name@ == dependency@
                            implies exists|d: int|
                                0 <= d < self.symbols@[j].dependents@.len()
                                && (#[trigger] self.symbols@[j].dependents@[d])@
                                    == dependent@ by {
                            if j != k as int {
                                assert(self.symbols@[j] == pre[j]);
                            } else {
                                let d0 = choose|d0: int|
                                    0 <= d0 < pre[j].dependents@.len()
                                    && (#[trigger] pre[j].dependents@[d0])@ == dependent@;
                                assert((self.symbols@[j].dependents@[d0])@ == dependent@);
                            }
                        }
                        assert forall|j: int| 0 <= j < k + 1
                            && (#[trigger] self.symbols@[j]).name@ == dependent@
                            implies exists|d: int|
                                0 <= d < self.symbols@[j].dependencies@.len()
                                && (#[trigger] self.symbols@[j].dependencies@[d])@
                                    == dependency@ by {
                            if j != k as int {
                                assert(self.symbols@[j] == pre[j]);
                            }
                        }
                    }
                } else {
                    proof {
                        let d0 = choose|d0: int|
                            0 <= d0 < self.symbols@[k as int].dependencies@.len()
                            && (#[trigger] self.symbols@[k as int].dependencies@[d0])@
                                == dependency@;
                        assert(0 <= d0 < self.symbols@[k as int].dependencies@.len()
                            && (self.symbols@[k as int].dependencies@[d0])@ == dependency@);
                    }
                }
            }
            k = k + 1;
        }
    }


    /// Topological ordering of the symbols: a symbol is emitted once every
    /// name it depends on has been emitted before it. On success the order
    /// is a permutation of the table's names in which every dependency
    /// precedes its dependent; when no complete order exists, the names
    /// still unordered hang on a cycle or on names no symbol defines, and
    /// are reported as a circular-dependency error.
    pub fn resolve_dependencies(&mut self) -> (r: Result<Vec<String>, AnalyzerError>)
        requires
            old(self).wf(),
        ensures
            final(self).wf(),
            final(self).symbols == old(self).symbols,
            match r {
                Result::Ok(order) => {
                    &&& final(self).resolution_order@.len() == order@.len()
                    &&& (forall|i: int| 0 <= i < order@.len()
                        ==> (#[trigger] final(self).resolution_order@[i])@ == order@[i]@)
                    &&& order@.len() == old(self).symbols@.len()
                    &&& (forall|i: int, j: int| 0 <= i < j < order@.len()
                        ==> (#[trigger] order@[i])@ != (#[trigger] order@[j])@)
                    &&& (forall|i: int| 0 <= i < order@.len()
                        ==> old(self).spec_has((#[trigger] order@[i])@))
                    &&& (forall|k: int| 0 <= k < old(self).symbols@.len()
                        ==> exists|i: int| 0 <= i < order@.len()
                            && (#[trigger] old(self).symbols@[k]).name@ == order@[i]@)
                    &&& order_respects_dependencies(order@, old(self).symbols@)
                    &&& (forall|i: int| 0 <= i < order@.len()
                        ==> emittable(old(self).symbols@).contains((#[trigger] order@[i])@))
                },
                Result::Err(e) => e matches AnalyzerError::CircularDependency(names)
                    && names@.len() > 0
                    && final(self).resolution_order == old(self).resolution_order
                    && (forall|i: int, j: int| 0 <= i < j < names@.len()
                        ==> (#[trigger] names@[i])@ != (#[trigger] names@[j])@)
                    && (forall|i: int| 0 <= i < names@.len()
                        ==> old(self).spec_has((#[trigger] names@[i])@)
                            && !emittable(old(self).symbols@).contains(names@[i]@))
                    && (forall|k: int| 0 <= k < old(self).symbols@.len()
                        && !emittable(old(self).symbols@).contains(
                            (#[trigger] old(self).symbols@[k]).name@)
                        ==> exists|i: int| 0 <= i < names@.len()
                            && (#[trigger] names@[i])@ == old(self).symbols@[k].name@),
            },
    {
        let n = self.symbols.len();
        let mut order: Vec<String> = Vec::new();
        let mut placed: Vec<bool> = Vec::new();
        let mut p: usize = 0;
        while p < n
            invariant
                p <= n,
                placed@.len() == p,
                count_true(placed@) == 0,
                forall|j: int| 0 <= j < p ==> !(#[trigger] placed@[j]),
            decreases n - p,
        {
            let ghost pre = placed@;
            placed.push(false);
            proof {
                assert(placed@.drop_last() =~= pre);
            }
            p = p + 1;
        }
        proof {
            assert(order@.len() == 0);
        }
        loop
            invariant
                *self == *old(self),
                old(self).wf(),
                n == self.symbols@.len(),
                placed@.len() == n,
                order@.len() <= n,
                forall|k: int| 0 <= k < n ==> (#[trigger] placed@[k]
                    <==> exists|i: int| 0 <= i < order@.len()
                        && (#[trigger] order@[i])@ == self.symbols@[k].name@),
                forall|i: int| 0 <= i < order@.len()
                    ==> self.spec_has((#[trigger] order@[i])@),
                forall|i: int, j: int| 0 <= i < j < order@.len()
                    ==> (#[trigger] order@[i])@ != (#[trigger] order@[j])@,
                order_respects_dependencies(order@, self.symbols@),
                count_true(placed@) == order@.len(),
            decreases n - order@.len() + 1,
        {
            let start_len = order.len();
            let ghost scan_start = order@;
            let mut progressed = false;
            let mut k: usize = 0;
            while k < n
                invariant
                    k <= n,
                    *self == *old(self),
                    old(self).wf(),
                    n == self.symbols@.len(),
                    placed@.len() == n,
                    order@.len() <= n,
                    forall|q: int| 0 <= q < n ==> (#[trigger] placed@[q]
                        <==> exists|i: int| 0 <= i < order@.len()
                            && (#[trigger] order@[i])@ == self.symbols@[q].name@),
                    forall|i: int| 0 <= i < order@.len()
                        ==> self.spec_has((#[trigger] order@[i])@),
                    forall|i: int, j: int| 0 <= i < j < order@.len()
                        ==> (#[trigger] order@[i])@ != (#[trigger] order@[j])@,
                    order_respects_dependencies(order@, self.symbols@),
                    count_true(placed@) == order@.len(),
                    start_len <= order@.len(),
                    progressed ==> order@.len() > start_len,
                    !progressed ==> order@.len() == start_len,
                    !progressed ==> order@ == scan_start,
                    !progressed ==> forall|q: int| 0 <= q < k
                        ==> #[trigger] placed@[q]
                            || !all_in_order(self.symbols@[q].dependencies@, order@),
                decreases n - k,
            {
                if !placed[k] {
                    if deps_all_in(&self.symbols[k].dependencies, &order) {
                        let ghost pre_order = order@;
                        let ghost pre_placed = placed@;
                        order.push(self.symbols[k].name.clone());
                        placed.set(k, true);
                        progressed = true;
                        proof {
                            lemma_count_true_update(pre_placed, k as int);
                            lemma_count_true_bound(placed@);
                            assert(order@[order@.len() - 1]@ == self.symbols@[k as int].name@);
                            assert forall|q: int| 0 <= q < n
                                implies (#[trigger] placed@[q] <==> exists|i: int|
                                    0 <= i < order@.len()
                                    && (#[trigger] order@[i])@ == self.symbols@[q].name@) by {
                                assert(placed@ == pre_placed.update(k as int, true));
                                if q == k {
                                    assert(placed@[q]);
                                    assert(order@[order@.len() - 1]@
                                        == self.symbols@[q].name@);
                                } else {
                                    assert(placed@[q] == pre_placed[q]);
                                    if placed@[q] {
                                        assert(pre_placed[q]);
                                        assert(exists|i: int| 0 <= i < pre_order.len()
                                            && (#[trigger] pre_order[i])@
                                                == self.symbols@[q].name@);
                                        let w = choose|i: int| 0 <= i < pre_order.len()
                                            && (#[trigger] pre_order[i])@
                                                == self.symbols@[q].name@;
                                        assert(order@[w]@ == self.symbols@[q].name@);
                                    } else {
                                        if exists|i: int| 0 <= i < order@.len()
                                            && (#[trigger] order@[i])@
                                                == self.symbols@[q].name@ {
                                            let w = choose|i: int| 0 <= i < order@.len()
                                                && (#[trigger] order@[i])@
                                                    == self.symbols@[q].name@;
                                            if w < pre_order.len() {
                                                assert(pre_order[w]@
                                                    == self.symbols@[q].name@);
                                                assert(pre_placed[q]);
                                                assert(false);
                                            } else {
                                                assert(self.symbols@[k as int].name@
                                                    == self.symbols@[q].name@);
                                                assert(false);
                                            }
                                        }
                                    }
                                }
                            }
                            assert forall|i: int, j: int| 0 <= i < j < order@.len()
                                implies (#[trigger] order@[i])@
                                    != (#[trigger] order@[j])@ by {
                                if j == order@.len() - 1 {
                                    if order@[i]@ == self.symbols@[k as int].name@ {
                                        assert(pre_order[i]@ == self.symbols@[k as int].name@);
                                        assert(pre_placed[k as int]);
                                    }
                                } else {
                                    assert(pre_order[i]@ != pre_order[j]@);
                                }
                            }
                            lemma_order_extend(pre_order, self.symbols@,
                                self.symbols@[k as int]);
                        }
                    }
                }
                k = k + 1;
            }
            if order.len() == n {
                self.resolution_order = clone_names(&order);
                proof {
                    assert forall|q: int| 0 <= q < old(self).symbols@.len()
                        implies exists|i: int| 0 <= i < order@.len()
                            && (#[trigger] old(self).symbols@[q]).name@ == order@[i]@ by {
                        lemma_count_true_full(placed@);
                        assert(placed@[q]);
                        let w = choose|i: int| 0 <= i < order@.len()
                            && (#[trigger] order@[i])@ == self.symbols@[q].name@;
                        assert(order@[w]@ == old(self).symbols@[q].name@);
                    }
                    assert forall|i: int| 0 <= i < order@.len()
                        implies table_has(self.symbols@, (#[trigger] order@[i])@) by {
                        assert(self.spec_has(order@[i]@));
                        let w = choose|w: int| 0 <= w < self.symbols@.len()
                            && (#[trigger] self.symbols@[w]).name@ == order@[i]@;
                        assert(table_has(self.symbols@, order@[i]@));
                    }
                    lemma_order_emittable(order@, self.symbols@);
                }
                return Ok(order);
            }
            if !progressed {
                let mut remaining: Vec<String> = Vec::new();
                proof {
                    assert(order@.len() == start_len);
                    lemma_count_true_bound(placed@);
                }
                let mut q: usize = 0;
                while q < n
                    invariant
                        q <= n,
                        *self == *old(self),
                        old(self).wf(),
                        n == self.symbols@.len(),
                        placed@.len() == n,
                        remaining@.len() >= q - count_true(placed@.take(q as int)),
                        count_true(placed@) < n,
                        count_true(placed@.take(q as int)) <= count_true(placed@),
                        forall|r: int| 0 <= r < remaining@.len()
                            ==> exists|q2: int| 0 <= q2 < q && !placed@[q2]
                                && (#[trigger] remaining@[r])@ == self.symbols@[q2].name@,
                        forall|q2: int| 0 <= q2 < q && !(#[trigger] placed@[q2])
                            ==> exists|r: int| 0 <= r < remaining@.len()
                                && (#[trigger] remaining@[r])@ == self.symbols@[q2].name@,
                        forall|r1: int, r2: int| 0 <= r1 < r2 < remaining@.len()
                            ==> (#[trigger] remaining@[r1])@ != (#[trigger] remaining@[r2])@,
                    decreases n - q,
                {
                    proof {
                        lemma_count_true_take_step(placed@, q as int);
                        lemma_count_true_take_mono(placed@, q as int + 1);
                    }
                    if !placed[q] {
                        let ghost pre_rem = remaining@;
                        remaining.push(self.symbols[q].name.clone());
                        proof {
                            assert(remaining@.drop_last() =~= pre_rem);
                            assert(remaining@.last()@ == self.symbols@[q as int].name@);
                            assert forall|r1: int, r2: int|
                                0 <= r1 < r2 < remaining@.len()
                                implies (#[trigger] remaining@[r1])@
                                    != (#[trigger] remaining@[r2])@ by {
                                if r2 == remaining@.len() - 1 {
                                    let q2 = choose|q2: int| 0 <= q2 < q as int
                                        && !placed@[q2]
                                        && (#[trigger] pre_rem[r1])@
                                            == self.symbols@[q2].name@;
                                    assert(self.symbols@[q2].name@
                                        != self.symbols@[q as int].name@);
                                } else {
                                    assert(pre_rem[r1]@ != pre_rem[r2]@);
                                }
                            }
                        }
                    }
                    q = q + 1;
                }
                proof {
                    assert(placed@.take(n as int) =~= placed@);
                    assert(remaining@.len() >= n - count_true(placed@));
                    let done = name_set(order@);
                    assert forall|k2: int| 0 <= k2 < self.symbols@.len()
                        && (forall|d: int| 0 <= d < self.symbols@[k2].dependencies@.len()
                            ==> done.contains(
                                (#[trigger] self.symbols@[k2].dependencies@[d])@))
                        implies done.contains((#[trigger] self.symbols@[k2]).name@) by {
                        assert forall|d: int|
                            0 <= d < self.symbols@[k2].dependencies@.len()
                            implies contains_name_of(order@,
                                (#[trigger] self.symbols@[k2].dependencies@[d])@) by {
                            assert(done.contains(self.symbols@[k2].dependencies@[d]@));
                        }
                        lemma_all_in_order_of_forall(
                            self.symbols@[k2].dependencies@, order@);
                        assert(placed@[k2]);
                        let w = choose|i: int| 0 <= i < order@.len()
                            && (#[trigger] order@[i])@ == self.symbols@[k2].name@;
                        assert(name_set(order@).contains(self.symbols@[k2].name@));
                    }
                    lemma_emitted_in_saturated(self.symbols@, done, n as nat);
                    assert forall|i: int| 0 <= i < order@.len()
                        implies table_has(self.symbols@, (#[trigger] order@[i])@) by {
                        assert(self.spec_has(order@[i]@));
                        let w = choose|w: int| 0 <= w < self.symbols@.len()
                            && (#[trigger] self.symbols@[w]).name@ == order@[i]@;
                        assert(table_has(self.symbols@, order@[i]@));
                    }
                    lemma_order_emittable(order@, self.symbols@);
                    lemma_count_true_bound(placed@);
                    lemma_emitted_monotone(self.symbols@, order@.len() as nat, n as nat);
                    assert forall|i: int| 0 <= i < remaining@.len()
                        implies old(self).spec_has((#[trigger] remaining@[i])@)
                            && !emittable(old(self).symbols@).contains(remaining@[i]@) by {
                        let q2 = choose|q2: int| 0 <= q2 < n as int && !placed@[q2]
                            && (#[trigger] remaining@[i])@ == self.symbols@[q2].name@;
                        assert(self.spec_has(remaining@[i]@));
                        if emittable(self.symbols@).contains(remaining@[i]@) {
                            assert(done.contains(remaining@[i]@));
                            let w = choose|w: int| 0 <= w < order@.len()
                                && (#[trigger] order@[w])@ == remaining@[i]@;
                            assert(placed@[q2]);
                        }
                    }
                    assert forall|k2: int| 0 <= k2 < self.symbols@.len()
                        && !emittable(self.symbols@).contains(
                            (#[trigger] self.symbols@[k2]).name@)
                        implies exists|i: int| 0 <= i < remaining@.len()
                            && (#[trigger] remaining@[i])@
                                == self.symbols@[k2].name@ by {
                        if placed@[k2] {
                            let w = choose|i: int| 0 <= i < order@.len()
                                && (#[trigger] order@[i])@ == self.symbols@[k2].name@;
                            assert(emitted_after(self.symbols@, order@.len() as nat)
                                .contains(order@[w]@));
                            assert(emittable(self.symbols@).contains(
                                self.symbols@[k2].name@));
                        }
                    }
                }
                return Err(AnalyzerError::CircularDependency(remaining));
            }
        }
    }

    /// The symbols held.
    pub fn symbols(&self) -> (r: &Vec<Symbol>)
        ensures
            r == &self.symbols,
    {
        &self.symbols
    }
}


/// Every emitted symbol's dependencies appear before it in the order; this
/// is the defining property of a topological resolution order.
pub open spec fn order_respects_dependencies(order: Seq<String>, symbols: Seq<Symbol>) -> bool
    decreases order,
{
    order.len() == 0
        || (order_respects_dependencies(order.drop_last(), symbols)
            && (forall|k: int| 0 <= k < symbols.len()
                && (#[trigger] symbols[k]).name@ == order.last()@
                ==> all_in_order(symbols[k].dependencies@, order.drop_last())))
}

/// The dependencies of the symbol standing at a position of the order are
/// wholly contained in the part of the order before that position.
pub proof fn lemma_order_respects_index(order: Seq<String>, symbols: Seq<Symbol>, i: int, k: int)
    requires
        order_respects_dependencies(order, symbols),
        0 <= i < order.len(),
        0 <= k < symbols.len(),
        symbols[k].name@ == order[i]@,
    ensures
        all_in_order(symbols[k].dependencies@, order.take(i)),
    decreases order,
{
    if i == order.len() - 1 {
        assert(order.last() == order[i]);
        assert(order.take(i) =~= order.drop_last());
    } else {
        assert(order.drop_last()[i] == order[i]);
        lemma_order_respects_index(order.drop_last(), symbols, i, k);
        assert(order.drop_last().take(i) =~= order.take(i));
    }
}

/// Appending a symbol whose dependencies are all in the order preserves
/// the order's defining property.
proof fn lemma_order_extend(order: Seq<String>, symbols: Seq<Symbol>, sym: Symbol)
    requires
        order_respects_dependencies(order, symbols),
        forall|i: int, j: int| 0 <= i < j < symbols.len()
            ==> (#[trigger] symbols[i]).name@ != (#[trigger] symbols[j]).name@,
        exists|k: int| 0 <= k < symbols.len() && symbols[k] == sym,
        all_in_order(sym.dependencies@, order),
    ensures
        order_respects_dependencies(order.push(sym.name), symbols),
{
    assert(order.push(sym.name).drop_last() =~= order);
    assert(order.push(sym.name).last() == sym.name);
    let w = choose|w: int| 0 <= w < symbols.len() && symbols[w] == sym;
    assert forall|k: int| 0 <= k < symbols.len()
        && (#[trigger] symbols[k]).name@ == order.push(sym.name).last()@
        implies all_in_order(symbols[k].dependencies@, order.push(sym.name).drop_last()) by {
        assert(k == w) by {
            if k != w {
                assert(symbols[k].name@ != symbols[w].name@);
            }
        }
        assert(symbols[k] == sym);
    }
}

/// Whether a name stands in a list of names.
pub open spec fn contains_name_of(order: Seq<String>, name: Seq<char>) -> bool {
    exists|j: int| 0 <= j < order.len() && (#[trigger] order[j])@ == name
}

/// Whether every name of the first list also stands in the second.
pub open spec fn all_in_order(deps: Seq<String>, order: Seq<String>) -> bool
    decreases deps,
{
    deps.len() == 0
        || (all_in_order(deps.drop_last(), order) && contains_name_of(order, deps.last()@))
}

/// Each name of a list that is wholly contained in an order stands in it.
pub proof fn lemma_all_in_order_index(deps: Seq<String>, order: Seq<String>, d: int)
    requires
        all_in_order(deps, order),
        0 <= d < deps.len(),
    ensures
        contains_name_of(order, deps[d]@),
    decreases deps,
{
    if d == deps.len() - 1 {
    } else {
        lemma_all_in_order_index(deps.drop_last(), order, d);
        assert(deps.drop_last()[d] == deps[d]);
    }
}

/// Extending an order keeps a containment that already held.
pub proof fn lemma_contains_name_extend(order: Seq<String>, name: Seq<char>, more: String)
    requires
        contains_name_of(order, name),
    ensures
        contains_name_of(order.push(more), name),
{
    let j = choose|j: int| 0 <= j < order.len() && (#[trigger] order[j])@ == name;
    assert(order.push(more)[j]@ == name);
}

/// How many entries are true.
pub open spec fn count_true(s: Seq<bool>) -> int
    decreases s,
{
    if s.len() == 0 {
        0
    } else {
        count_true(s.drop_last()) + if s.last() { 1int } else { 0int }
    }
}

proof fn lemma_count_true_update(s: Seq<bool>, k: int)
    requires
        0 <= k < s.len(),
        !s[k],
    ensures
        count_true(s.update(k, true)) == count_true(s) + 1,
    decreases s,
{
    if k == s.len() - 1 {
        assert(s.update(k, true).drop_last() =~= s.drop_last());
    } else {
        lemma_count_true_update(s.drop_last(), k);
        assert(s.update(k, true).drop_last() =~= s.drop_last().update(k, true));
        assert(s.update(k, true).last() == s.last());
    }
}

/// When as many entries are true as there are entries, all are true.
proof fn lemma_count_true_full(s: Seq<bool>)
    requires
        count_true(s) == s.len(),
    ensures
        forall|q: int| 0 <= q < s.len() ==> s[q],
    decreases s,
{
    if s.len() > 0 {
        lemma_count_true_bound(s.drop_last());
        lemma_count_true_full(s.drop_last());
        assert forall|q: int| 0 <= q < s.len() implies s[q] by {
            if q < s.len() - 1 {
                assert(s.drop_last()[q]);
            }
        }
    }
}

proof fn lemma_count_true_bound(s: Seq<bool>)
    ensures
        0 <= count_true(s) <= s.len(),
    decreases s,
{
    if s.len() > 0 {
        lemma_count_true_bound(s.drop_last());
    }
}

proof fn lemma_count_true_take_step(s: Seq<bool>, q: int)
    requires
        0 <= q < s.len(),
    ensures
        count_true(s.take(q + 1)) == count_true(s.take(q)) + if s[q] { 1int } else { 0int },
{
    assert(s.take(q + 1).drop_last() =~= s.take(q));
    assert(s.take(q + 1).last() == s[q]);
}

proof fn lemma_count_true_take_mono(s: Seq<bool>, q: int)
    requires
        0 <= q <= s.len(),
    ensures
        count_true(s.take(q)) <= count_true(s),
    decreases s.len() - q,
{
    if q == s.len() {
        assert(s.take(q) =~= s);
    } else {
        lemma_count_true_take_step(s, q);
        lemma_count_true_take_mono(s, q + 1);
    }
}

/// Whether every name in `deps` already stands in `order`.
fn deps_all_in(deps: &Vec<String>, order: &Vec<String>) -> (r: bool)
    ensures
        r == all_in_order(deps@, order@),
{
    let mut d: usize = 0;
    proof {
        assert(deps@.take(0) =~= Seq::<String>::empty());
    }
    while d < deps.len()
        invariant
            d <= deps@.len(),
            all_in_order(deps@.take(d as int), order@),
        decreases deps@.len() - d,
    {
        if !order.contains_name(deps[d].as_str()) {
            proof {
                lemma_all_in_order_not(deps@, order@, d as int);
            }
            return false;
        }
        proof {
            assert(deps@.take(d as int + 1).drop_last() =~= deps@.take(d as int));
            assert(deps@.take(d as int + 1).last() == deps@[d as int]);
        }
        d = d + 1;
    }
    proof {
        assert(deps@.take(deps@.len() as int) =~= deps@);
    }
    true
}

/// A list with one name absent from an order is not wholly contained in it.
proof fn lemma_all_in_order_not(deps: Seq<String>, order: Seq<String>, d: int)
    requires
        0 <= d < deps.len(),
        !contains_name_of(order, deps[d]@),
    ensures
        !all_in_order(deps, order),
{
    if all_in_order(deps, order) {
        lemma_all_in_order_index(deps, order, d);
    }
}

/// No dependency path returns to its starting symbol once a resolution
/// order exists: the dependency relation of an analyzable program is
/// acyclic. A path is a run of symbol indexes, each naming a dependency of
/// the one before it.
pub proof fn lemma_dependencies_acyclic(order: Seq<String>, symbols: Seq<Symbol>, path: Seq<int>)
    requires
        order_respects_dependencies(order, symbols),
        forall|i: int, j: int| 0 <= i < j < symbols.len()
            ==> (#[trigger] symbols[i]).name@ != (#[trigger] symbols[j]).name@,
        forall|k: int| 0 <= k < symbols.len() ==> exists|i: int| 0 <= i < order.len()
            && (#[trigger] symbols[k]).name@ == order[i]@,
        forall|i: int, j: int| 0 <= i < j < order.len()
            ==> (#[trigger] order[i])@ != (#[trigger] order[j])@,
        path.len() >= 2,
        forall|p: int| 0 <= p < path.len() ==> 0 <= #[trigger] path[p] < symbols.len(),
        forall|p: int| 0 <= p < path.len() - 1 ==> exists|d: int|
            0 <= d < symbols[#[trigger] path[p]].dependencies@.len()
            && symbols[path[p]].dependencies@[d]@ == symbols[path[p + 1]].name@,
    ensures
        path.first() != path.last(),
    decreases path.len(),
{
    assert forall|p: int| 0 <= p < path.len() - 1
        implies pos_of(order, symbols, #[trigger] path[p + 1])
            < pos_of(order, symbols, path[p]) by {
        let k = path[p];
        let k2 = path[p + 1];
        let i = pos_of(order, symbols, k);
        let i2 = pos_of(order, symbols, k2);
        assert(symbols[k].name@ == order[i]@);
        assert(symbols[k2].name@ == order[i2]@);
        let d = choose|d: int| 0 <= d < symbols[k].dependencies@.len()
            && (#[trigger] symbols[k].dependencies@[d])@ == symbols[k2].name@;
        lemma_order_respects_index(order, symbols, i, k);
        lemma_all_in_order_index(symbols[k].dependencies@, order.take(i), d);
        let j = choose|j: int| 0 <= j < order.take(i).len()
            && (#[trigger] order.take(i)[j])@ == symbols[k].dependencies@[d]@;
        assert(order[j]@ == order[i2]@);
        assert(j == i2) by {
            if j < i2 {
                assert(order[j]@ != order[i2]@);
            }
            if i2 < j {
                assert(order[i2]@ != order[j]@);
            }
        }
    }
    lemma_pos_descends(order, symbols, path, 0, path.len() - 1);
    if path.first() == path.last() {
        assert(pos_of(order, symbols, path.last()) < pos_of(order, symbols, path.first()));
    }
}

/// The position a symbol's name holds in the order.
spec fn pos_of(order: Seq<String>, symbols: Seq<Symbol>, k: int) -> int {
    choose|i: int| 0 <= i < order.len() && symbols[k].name@ == (#[trigger] order[i])@
}

proof fn lemma_pos_descends(order: Seq<String>, symbols: Seq<Symbol>, path: Seq<int>,
    a: int, b: int)
    requires
        0 <= a < b < path.len(),
        forall|p: int| 0 <= p < path.len() - 1
            ==> pos_of(order, symbols, #[trigger] path[p + 1])
                < pos_of(order, symbols, path[p]),
    ensures
        pos_of(order, symbols, path[b]) < pos_of(order, symbols, path[a]),
    decreases b - a,
{
    if a + 1 == b {
        assert(pos_of(order, symbols, path[a + 1]) < pos_of(order, symbols, path[a]));
    } else {
        lemma_pos_descends(order, symbols, path, a + 1, b);
        assert(pos_of(order, symbols, path[a + 1]) < pos_of(order, symbols, path[a]));
    }
}


/// An endpoint declaration: name, HTTP method, path, handler expression and
/// definition line. The pair (method, path) must be unique across all
/// endpoints of a valid program.
#[derive(Debug, Clone)]
pub struct EndpointInfo {
    pub name: String,
    pub method: HttpMethod,
    pub path: String,
    pub handler: AstNode,
    pub line: usize,
}

/// A test declaration: name, the expression to evaluate, input bindings,
/// the expected value, the regex flag and the definition line.
#[derive(Debug, Clone)]
pub struct TestInfo {
    pub name: String,
    pub expect_expression: AstNode,
    pub inputs: Vec<(String, AstNode)>,
    pub expected_output: AstNode,
    pub is_regex: bool,
    pub line: usize,
}

/// The result of a successful analysis: the typed symbol table, the
/// resolution order, and the endpoint and test declarations found.
#[derive(Debug)]
pub struct AnalyzedProgram {
    pub symbol_table: SymbolTable,
    pub resolution_order: Vec<String>,
    pub endpoints: Vec<EndpointInfo>,
    pub tests: Vec<TestInfo>,
}

/// Whether some dependency of the symbol names a symbol whose current type
/// is a promise.
pub open spec fn has_promise_dep(symbols: Seq<Symbol>, k: int) -> bool {
    exists|d: int, j: int| 0 <= d < symbols[k].dependencies@.len()
        && 0 <= j < symbols.len()
        && (#[trigger] symbols[j]).name@ == (#[trigger] symbols[k].dependencies@[d])@
        && is_promise(symbols[j].symbol_type)
}

/// Two symbol runs that agree on everything but types and resolution marks.
/// Two symbols that agree on everything but their edge lists.
pub open spec fn same_but_edges(a: Symbol, b: Symbol) -> bool {
    &&& a.name@ == b.name@
    &&& a.symbol_type == b.symbol_type
    &&& a.is_resolved == b.is_resolved
    &&& a.definition_line == b.definition_line
    &&& a.ast_node == b.ast_node
}

/// The second run of names is the first, possibly extended by one entry
/// spelling the given name.
pub open spec fn pushed_name(a: Seq<String>, b: Seq<String>, nm: Seq<char>) -> bool {
    b == a || (b.len() == a.len() + 1 && b.drop_last() == a && b.last()@ == nm)
}

/// A usable resolution order: duplicate-free, covering every symbol of
/// the table, and listing every dependency before its dependent.
pub open spec fn coherent_order(order: Seq<String>, symbols: Seq<Symbol>) -> bool {
    &&& forall|i: int, j: int| 0 <= i < j < order.len()
        ==> (#[trigger] order[i])@ != (#[trigger] order[j])@
    &&& forall|k: int| 0 <= k < symbols.len()
        ==> exists|i: int| 0 <= i < order.len()
            && (#[trigger] symbols[k]).name@ == order[i]@
    &&& order_respects_dependencies(order, symbols)
}

/// Every symbol named in the order's prefix is resolved, and is a promise
/// whenever one of its dependencies names a symbol whose type is one.
pub open spec fn prefix_settled(order: Seq<String>, upto: int, symbols: Seq<Symbol>) -> bool {
    forall|o2: int, k: int| 0 <= o2 < upto && o2 < order.len() && 0 <= k < symbols.len()
        && (#[trigger] symbols[k]).name@ == (#[trigger] order[o2])@
        ==> symbols[k].is_resolved
            && (has_promise_dep(symbols, k) ==> is_promise(symbols[k].symbol_type))
}

pub open spec fn same_shape(a: Seq<Symbol>, b: Seq<Symbol>) -> bool {
    a.len() == b.len() && forall|k: int| 0 <= k < a.len()
        ==> (#[trigger] a[k]).name == b[k].name
            && a[k].dependencies == b[k].dependencies
            && a[k].dependents == b[k].dependents
            && a[k].definition_line == b[k].definition_line
            && a[k].ast_node == b[k].ast_node
}

/// A resolution order respects one of two same-shaped tables exactly when
/// it respects the other: the property reads only names and dependencies.
pub proof fn lemma_order_respects_same_shape(order: Seq<String>, a: Seq<Symbol>, b: Seq<Symbol>)
    requires
        same_shape(a, b),
        order_respects_dependencies(order, a),
    ensures
        order_respects_dependencies(order, b),
    decreases order,
{
    if order.len() > 0 {
        lemma_order_respects_same_shape(order.drop_last(), a, b);
        assert forall|k: int| 0 <= k < b.len()
            && (#[trigger] b[k]).name@ == order.last()@
            implies all_in_order(b[k].dependencies@, order.drop_last()) by {
            assert(a[k].name == b[k].name);
            assert(a[k].dependencies == b[k].dependencies);
        }
    }
}

/// The semantic analyzer: the symbol table under construction, the scope
/// label, and the endpoint and test declarations collected so far.
pub struct SemanticAnalyzer {
    pub symbol_table: SymbolTable,
    pub current_scope: String,
    pub endpoints: Vec<EndpointInfo>,
    pub tests: Vec<TestInfo>,
}

impl SemanticAnalyzer {
    /// A fresh analyzer with an empty table and the global scope.
    pub fn new() -> (r: Self)
        ensures
            r.symbol_table.wf(),
            r.symbol_table.symbols@.len() == 0,
            r.endpoints@.len() == 0,
            r.tests@.len() == 0,
            r.current_scope@ == "global"@,
    {
        SemanticAnalyzer {
            symbol_table: SymbolTable::new(),
            current_scope: "global".to_owned(),
            endpoints: Vec::new(),
            tests: Vec::new(),
        }
    }

    /// Run the whole pipeline: collect symbols and declarations, order the
    /// dependency graph, propagate promise types in that order, validate,
    /// and hand the results out. On success the order is a permutation of
    /// the table's names in which every dependency precedes its dependent,
    /// every symbol is resolved, every recorded dependency names a table
    /// symbol, and no two distinct endpoints share a method and path.
    pub fn analyze(&mut self, ast: &AstNode) -> (r: Result<AnalyzedProgram, AnalyzerError>)
        requires
            old(self).symbol_table.wf(),
        ensures
            final(self).symbol_table.wf(),
            match r {
                Result::Ok(p) => {
                    &&& p.symbol_table.wf()
                    &&& p.resolution_order@.len() == p.symbol_table.symbols@.len()
                    &&& (forall|i: int, j: int| 0 <= i < j < p.resolution_order@.len()
                        ==> (#[trigger] p.resolution_order@[i])@
                            != (#[trigger] p.resolution_order@[j])@)
                    &&& (forall|k: int| 0 <= k < p.symbol_table.symbols@.len()
                        ==> exists|i: int| 0 <= i < p.resolution_order@.len()
                            && (#[trigger] p.symbol_table.symbols@[k]).name@
                                == p.resolution_order@[i]@)
                    &&& order_respects_dependencies(p.resolution_order@,
                        p.symbol_table.symbols@)
                    &&& deps_all_defined(p.symbol_table.symbols@)
                    &&& endpoints_distinct(p.endpoints@)
                    &&& (forall|k: int| 0 <= k < p.symbol_table.symbols@.len()
                        ==> (#[trigger] p.symbol_table.symbols@[k]).is_resolved)
                    &&& (forall|k: int| 0 <= k < p.symbol_table.symbols@.len()
                        && has_promise_dep(p.symbol_table.symbols@, k)
                        ==> is_promise((#[trigger] p.symbol_table.symbols@[k]).symbol_type))
                },
                Result::Err(e) => e is TypeError || e is UndefinedSymbol
                    || e is DuplicateEndpoint || e is CircularDependency,
            },
    {
        match self.collect_symbols(ast) {
            Ok(()) => {},
            Err(e) => { return Err(e); },
        }
        match self.validate_program() {
            Ok(()) => {},
            Err(e) => { return Err(e); },
        }
        let ghost validated_over = self.symbol_table.symbols@;
        let resolution_order = match self.symbol_table.resolve_dependencies() {
            Ok(order) => order,
            Err(e) => { return Err(e); },
        };
        let ghost resolved_over = self.symbol_table.symbols@;
        self.infer_types(&resolution_order);
        proof {
            lemma_order_respects_same_shape(resolution_order@, resolved_over,
                self.symbol_table.symbols@);
            assert(coherent_order(resolution_order@, resolved_over));
            lemma_deps_all_defined_same_shape(resolved_over, self.symbol_table.symbols@);
        }
        let ghost pre_infer = self.symbol_table.symbols@;
        let mut table = SymbolTable::new();
        core::mem::swap(&mut table, &mut self.symbol_table);
        let mut endpoints: Vec<EndpointInfo> = Vec::new();
        core::mem::swap(&mut endpoints, &mut self.endpoints);
        let mut tests: Vec<TestInfo> = Vec::new();
        core::mem::swap(&mut tests, &mut self.tests);
        Ok(AnalyzedProgram { symbol_table: table, resolution_order, endpoints, tests })
    }

    /// Pass over the AST collecting symbols, endpoints and tests: every
    /// assignment and every object field becomes a symbol named by its
    /// left-hand side, seeded with the locally inferable type of its
    /// right-hand side and the names that expression reads; endpoint and
    /// test declarations are recorded and their bodies walked. Table
    /// well-formedness is preserved; the only failure is a type error from
    /// local inference.
    pub fn collect_symbols(&mut self, node: &AstNode) -> (r: Result<(), AnalyzerError>)
        requires
            old(self).symbol_table.wf(),
        ensures
            final(self).symbol_table.wf(),
            r matches Result::Err(e) ==> e matches AnalyzerError::TypeError { .. },
        decreases node,
    {
        match node {
            AstNode::Program(statements) => {
                let mut i: usize = 0;
                while i < statements.len()
                    invariant
                        i <= statements@.len(),
                        self.symbol_table.wf(),
                        (*node == AstNode::Program(*statements)),
                    decreases statements@.len() - i,
                {
                    proof {
                        assert(decreases_to!(*node => statements@[i as int])) by {
                            assert(decreases_to!(*node => node->Program_0));
                            assert(node->Program_0 == *statements);
                            assert(decreases_to!(*statements => statements@));
                            assert(decreases_to!(statements@ => statements@[i as int]));
                        }
                    }
                    match self.collect_symbols(&statements[i]) {
                        Ok(()) => {},
                        Err(e) => { return Err(e); },
                    }
                    i = i + 1;
                }
                Ok(())
            },
            AstNode::Assignment { name, value, line } => {
                let symbol_type = match self.infer_type_from_ast(value) {
                    Ok(t) => t,
                    Err(e) => { return Err(e); },
                };
                let mut symbol = Symbol::new(name.clone(), symbol_type, *line);
                symbol.ast_node = Some((**value).clone());
                let dependencies = collect_dependencies(value);
                symbol.dependencies = clone_names(&dependencies);
                self.symbol_table.add_symbol(symbol);
                let mut d: usize = 0;
                while d < dependencies.len()
                    invariant
                        d <= dependencies@.len(),
                        self.symbol_table.wf(),
                    decreases dependencies@.len() - d,
                {
                    self.symbol_table.add_dependency(name.as_str(), dependencies[d].as_str());
                    d = d + 1;
                }
                Ok(())
            },
            AstNode::Endpoint { name, method, path, handler, line } => {
                self.endpoints.push(EndpointInfo {
                    name: name.clone(),
                    method: *method,
                    path: path.clone(),
                    handler: (**handler).clone(),
                    line: *line,
                });
                self.collect_symbols(handler)
            },
            AstNode::Test { name, expect_expression, inputs, expected_output, is_regex, line } => {
                self.tests.push(TestInfo {
                    name: name.clone(),
                    expect_expression: (**expect_expression).clone(),
                    inputs: clone_binding_pairs(inputs),
                    expected_output: (**expected_output).clone(),
                    is_regex: *is_regex,
                    line: *line,
                });
                match self.collect_symbols(expect_expression) {
                    Ok(()) => {},
                    Err(e) => { return Err(e); },
                }
                let mut i: usize = 0;
                while i < inputs.len()
                    invariant
                        i <= inputs@.len(),
                        self.symbol_table.wf(),
                        (node matches AstNode::Test { inputs: held, .. } && held == inputs),
                    decreases inputs@.len() - i,
                {
                    proof {
                        assert(decreases_to!(*node => inputs@[i as int].1)) by {
                            assert(decreases_to!(*node => node->inputs));
                            assert(node->inputs == *inputs);
                            assert(decreases_to!(*inputs => inputs@));
                            assert(decreases_to!(inputs@ => inputs@[i as int]));
                            assert(decreases_to!(inputs@[i as int] => inputs@[i as int].1));
                        }
                    }
                    match self.collect_symbols(&inputs[i].1) {
                        Ok(()) => {},
                        Err(e) => { return Err(e); },
                    }
                    i = i + 1;
                }
                self.collect_symbols(expected_output)
            },
            AstNode::Object { fields, line } => {
                let mut i: usize = 0;
                while i < fields.len()
                    invariant
                        i <= fields@.len(),
                        self.symbol_table.wf(),
                        (node matches AstNode::Object { fields: held, .. } && held == fields),
                    decreases fields@.len() - i,
                {
                    proof {
                        assert(decreases_to!(*node => fields@[i as int].1)) by {
                            assert(decreases_to!(*node => node->fields));
                            assert(node->fields == *fields);
                            assert(decreases_to!(*fields => fields@));
                            assert(decreases_to!(fields@ => fields@[i as int]));
                            assert(decreases_to!(fields@[i as int] => fields@[i as int].1));
                        }
                    }
                    let field_value = &fields[i].1;
                    let symbol_type = match self.infer_type_from_ast(field_value) {
                        Ok(t) => t,
                        Err(e) => { return Err(e); },
                    };
                    let key = fields[i].0.clone();
                    let mut symbol = Symbol::new(key.clone(), symbol_type, *line);
                    symbol.ast_node = Some(field_value.clone());
                    let dependencies = collect_dependencies(field_value);
                    symbol.dependencies = clone_names(&dependencies);
                    self.symbol_table.add_symbol(symbol);
                    let mut d: usize = 0;
                    while d < dependencies.len()
                        invariant
                            d <= dependencies@.len(),
                            self.symbol_table.wf(),
                        decreases dependencies@.len() - d,
                    {
                        self.symbol_table.add_dependency(key.as_str(),
                            dependencies[d].as_str());
                        d = d + 1;
                    }
                    match self.collect_symbols(field_value) {
                        Ok(()) => {},
                        Err(e) => { return Err(e); },
                    }
                    i = i + 1;
                }
                Ok(())
            },
            AstNode::Array { elements, .. } => {
                let mut i: usize = 0;
                while i < elements.len()
                    invariant
                        i <= elements@.len(),
                        self.symbol_table.wf(),
                        (node matches AstNode::Array { elements: held, .. } && held == elements),
                    decreases elements@.len() - i,
                {
                    proof {
                        assert(decreases_to!(*node => elements@[i as int])) by {
                            assert(decreases_to!(*node => node->elements));
                            assert(node->elements == *elements);
                            assert(decreases_to!(*elements => elements@));
                            assert(decreases_to!(elements@ => elements@[i as int]));
                        }
                    }
                    match self.collect_symbols(&elements[i]) {
                        Ok(()) => {},
                        Err(e) => { return Err(e); },
                    }
                    i = i + 1;
                }
                Ok(())
            },
            AstNode::Binary { left, right, .. } => {
                match self.collect_symbols(left) {
                    Ok(()) => {},
                    Err(e) => { return Err(e); },
                }
                self.collect_symbols(right)
            },
            AstNode::Unary { operand, .. } => self.collect_symbols(operand),
            AstNode::MemberAccess { object, .. } => self.collect_symbols(object),
            AstNode::FunctionCall { arguments, .. } => {
                let mut i: usize = 0;
                while i < arguments.len()
                    invariant
                        i <= arguments@.len(),
                        self.symbol_table.wf(),
                        (node matches AstNode::FunctionCall { arguments: held, .. }
                            && held == arguments),
                    decreases arguments@.len() - i,
                {
                    proof {
                        assert(decreases_to!(*node => arguments@[i as int])) by {
                            assert(decreases_to!(*node => node->arguments));
                            assert(node->arguments == *arguments);
                            assert(decreases_to!(*arguments => arguments@));
                            assert(decreases_to!(arguments@ => arguments@[i as int]));
                        }
                    }
                    match self.collect_symbols(&arguments[i]) {
                        Ok(()) => {},
                        Err(e) => { return Err(e); },
                    }
                    i = i + 1;
                }
                Ok(())
            },
            AstNode::Promise { expression, .. } => self.collect_symbols(expression),
            AstNode::HttpCall { url, body, headers, .. } => {
                match self.collect_symbols(url) {
                    Ok(()) => {},
                    Err(e) => { return Err(e); },
                }
                match body {
                    Some(b) => {
                        proof {
                            assert(decreases_to!(*node => **b)) by {
                                assert(decreases_to!(*node => node->body));
                                assert(node->body == *body);
                            }
                        }
                        let inner: &AstNode = &**b;
                        match self.collect_symbols(inner) {
                            Ok(()) => {},
                            Err(e) => { return Err(e); },
                        }
                    },
                    None => {},
                }
                match headers {
                    Some(hs) => {
                        let mut i: usize = 0;
                        while i < hs.len()
                            invariant
                                i <= hs@.len(),
                                self.symbol_table.wf(),
                                (node matches AstNode::HttpCall { headers: held, .. }
                                    && held == &Some(*hs)),
                            decreases hs@.len() - i,
                        {
                            proof {
                                assert(decreases_to!(*node => hs@[i as int].1)) by {
                                    assert(decreases_to!(*node => node->headers));
                                    assert(node->headers == Some(*hs));
                                    assert(decreases_to!(node->headers => node->headers->0));
                                    assert(node->headers->0 == *hs);
                                    assert(decreases_to!(*hs => hs@));
                                    assert(decreases_to!(hs@ => hs@[i as int]));
                                    assert(decreases_to!(hs@[i as int] => hs@[i as int].1));
                                }
                            }
                            match self.collect_symbols(&hs[i].1) {
                                Ok(()) => {},
                                Err(e) => { return Err(e); },
                            }
                            i = i + 1;
                        }
                    },
                    None => {},
                }
                Ok(())
            },
            _ => Ok(()),
        }
    }

    /// Locally inferable type of an expression, per the inference rules:
    /// literals take their scalar types; arrays take the first element's
    /// type, or any when empty; objects are structural; a known identifier
    /// takes its symbol's current type, an unknown one any; arithmetic
    /// follows the promotion rules with promise lifting; HTTP and function
    /// calls are promises; the only failure is a type error on non-numeric
    /// subtraction, multiplication or division.
    pub fn infer_type_from_ast(&self, node: &AstNode) -> (r: Result<Type, AnalyzerError>)
        requires
            self.symbol_table.wf(),
        ensures
            node matches AstNode::String(_) ==> r == Result::<Type, AnalyzerError>::Ok(Type::String),
            node matches AstNode::Number(_) ==> r == Result::<Type, AnalyzerError>::Ok(Type::Number),
            node matches AstNode::Boolean(_) ==> r == Result::<Type, AnalyzerError>::Ok(Type::Boolean),
            node is Null ==> r == Result::<Type, AnalyzerError>::Ok(Type::Null),
            node matches AstNode::HttpCall { .. } ==> r == Result::<Type, AnalyzerError>::Ok(
                Type::Promise(Some(Box::new(Type::Any)))),
            node matches AstNode::FunctionCall { .. } ==> r == Result::<Type, AnalyzerError>::Ok(
                Type::Promise(Some(Box::new(Type::Any)))),
            node matches AstNode::Promise { .. }
                ==> (r matches Result::Ok(t)
                    ==> (t matches Type::Promise(inner) && inner is Some)),
            node matches AstNode::Identifier(n) && !self.symbol_table.spec_has(n@)
                ==> r == Result::<Type, AnalyzerError>::Ok(Type::Any),
            r matches Result::Err(e) ==> e matches AnalyzerError::TypeError { .. },
            r matches Result::Ok(t) ==> infer_of(*node, self.symbol_table.symbols@)
                == Option::Some(type_view(t)),
            r is Err ==> infer_of(*node, self.symbol_table.symbols@) is None,
        decreases node,
    {
        match node {
            AstNode::String(_) => {
                proof {
                    assert(infer_of(*node, self.symbol_table.symbols@)
                        == Option::Some(type_view(Type::String)));
                }
                Ok(Type::String)
            },
            AstNode::Number(_) => {
                proof {
                    assert(infer_of(*node, self.symbol_table.symbols@)
                        == Option::Some(type_view(Type::Number)));
                }
                Ok(Type::Number)
            },
            AstNode::Boolean(_) => {
                proof {
                    assert(infer_of(*node, self.symbol_table.symbols@)
                        == Option::Some(type_view(Type::Boolean)));
                }
                Ok(Type::Boolean)
            },
            AstNode::Null => {
                proof {
                    assert(infer_of(*node, self.symbol_table.symbols@)
                        == Option::Some(type_view(Type::Null)));
                }
                Ok(Type::Null)
            },
            AstNode::Identifier(name) => match self.symbol_table.get_symbol(name.as_str()) {
                Some(symbol) => {
                    proof {
                        let i = choose|i: int| 0 <= i < self.symbol_table.symbols@.len()
                            && self.symbol_table.symbols@[i] == *symbol;
                        let j = table_index_of(self.symbol_table.symbols@, name@);
                        assert(0 <= j < self.symbol_table.symbols@.len()
                            && self.symbol_table.symbols@[j].name@ == name@);
                        if i != j {
                            assert(self.symbol_table.symbols@[i].name@
                                != self.symbol_table.symbols@[j].name@);
                        }
                        assert(infer_of(*node, self.symbol_table.symbols@)
                            == Option::Some(type_view(
                                self.symbol_table.symbols@[j].symbol_type)));
                    }
                    Ok(symbol.symbol_type.clone())
                },
                None => {
                    proof {
                        assert(infer_of(*node, self.symbol_table.symbols@)
                            == Option::Some(type_view(Type::Any)));
                    }
                    Ok(Type::Any)
                },
            },
            AstNode::Binary { left, right, operator, line } => {
                let left_type = match self.infer_type_from_ast(left) {
                    Ok(t) => t,
                    Err(e) => { return Err(e); },
                };
                let right_type = match self.infer_type_from_ast(right) {
                    Ok(t) => t,
                    Err(e) => { return Err(e); },
                };
                infer_binary_type(&left_type, &right_type, *operator, *line)
            },
            AstNode::Unary { operand, operator, .. } => {
                let operand_type = match self.infer_type_from_ast(operand) {
                    Ok(t) => t,
                    Err(e) => { return Err(e); },
                };
                proof { lemma_type_view_variants(operand_type); }
                match operator {
                    UnaryOp::Negate => match operand_type {
                        Type::Number => {
                            proof {
                                assert(infer_of(*node, self.symbol_table.symbols@)
                                    == Option::Some(type_view(Type::Number)));
                            }
                            Ok(Type::Number)
                        },
                        Type::Promise(Some(inner)) => {
                            proof { lemma_type_view_variants(*inner); }
                            if matches!(&*inner, Type::Number) {
                                proof {
                                    assert(infer_of(*node, self.symbol_table.symbols@)
                                        == Option::Some(type_view(
                                            Type::Promise(Some(Box::new(Type::Number))))));
                                }
                                Ok(Type::Promise(Some(Box::new(Type::Number))))
                            } else {
                                proof {
                                    assert(infer_of(*node, self.symbol_table.symbols@)
                                        == Option::Some(type_view(Type::Any)));
                                }
                                Ok(Type::Any)
                            }
                        },
                        _ => {
                            proof {
                                assert(infer_of(*node, self.symbol_table.symbols@)
                                    == Option::Some(type_view(Type::Any)));
                            }
                            Ok(Type::Any)
                        },
                    },
                    UnaryOp::Not => {
                        proof {
                            assert(infer_of(*node, self.symbol_table.symbols@)
                                == Option::Some(type_view(Type::Boolean)));
                        }
                        Ok(Type::Boolean)
                    },
                }
            },
            AstNode::Array { elements, .. } => {
                if elements.len() == 0 {
                    proof {
                        assert(infer_of(*node, self.symbol_table.symbols@)
                            == Option::Some(type_view(Type::Array(Box::new(Type::Any)))));
                    }
                    Ok(Type::Array(Box::new(Type::Any)))
                } else {
                    proof {
                        assert(decreases_to!(*node => elements@[0])) by {
                            assert(decreases_to!(*node => node->elements));
                            assert(node->elements == *elements);
                            assert(decreases_to!(*elements => elements@));
                            assert(decreases_to!(elements@ => elements@[0]));
                        }
                    }
                    let element_type = match self.infer_type_from_ast(&elements[0]) {
                        Ok(t) => t,
                        Err(e) => { return Err(e); },
                    };
                    proof {
                        assert(infer_of(*node, self.symbol_table.symbols@)
                            == Option::Some(type_view(Type::Array(Box::new(element_type)))));
                    }
                    Ok(Type::Array(Box::new(element_type)))
                }
            },
            AstNode::Object { fields, .. } => {
                let mut object_fields: Vec<(String, Type)> = Vec::new();
                let mut i: usize = 0;
                while i < fields.len()
                    invariant
                        i <= fields@.len(),
                        self.symbol_table.wf(),
                        (node matches AstNode::Object { fields: held, .. } && held == fields),
                        infer_fields_of(fields@.take(i as int), self.symbol_table.symbols@)
                            == Option::Some(views_of_type_fields(object_fields@)),
                    decreases fields@.len() - i,
                {
                    proof {
                        assert(decreases_to!(*node => fields@[i as int].1)) by {
                            assert(decreases_to!(*node => node->fields));
                            assert(node->fields == *fields);
                            assert(decreases_to!(*fields => fields@));
                            assert(decreases_to!(fields@ => fields@[i as int]));
                            assert(decreases_to!(fields@[i as int] => fields@[i as int].1));
                        }
                    }
                    let value_type = match self.infer_type_from_ast(&fields[i].1) {
                        Ok(t) => t,
                        Err(e) => {
                            proof {
                                lemma_infer_fields_none(fields@,
                                    self.symbol_table.symbols@, i as int);
                            }
                            return Err(e);
                        },
                    };
                    let key = fields[i].0.clone();
                    let ghost preout = object_fields@;
                    object_fields.push((key, value_type));
                    proof {
                        assert(fields@.take(i as int + 1).drop_last()
                            =~= fields@.take(i as int));
                        assert(fields@.take(i as int + 1).last() == fields@[i as int]);
                        assert(object_fields@.drop_last() =~= preout);
                        assert(views_of_type_fields(object_fields@)
                            == views_of_type_fields(preout)
                                .push((key@, type_view(value_type))));
                        assert(infer_fields_of(fields@.take(i as int + 1),
                            self.symbol_table.symbols@)
                            == Option::Some(views_of_type_fields(object_fields@)));
                    }
                    i = i + 1;
                }
                proof {
                    assert(fields@.take(fields@.len() as int) =~= fields@);
                    assert(infer_of(*node, self.symbol_table.symbols@)
                        == Option::Some(type_view(Type::Object(object_fields))));
                }
                Ok(Type::Object(object_fields))
            },
            AstNode::Promise { expression, .. } => {
                let inner_type = match self.infer_type_from_ast(expression) {
                    Ok(t) => t,
                    Err(e) => { return Err(e); },
                };
                proof {
                    assert(infer_of(*node, self.symbol_table.symbols@)
                        == Option::Some(type_view(
                            Type::Promise(Some(Box::new(inner_type))))));
                }
                Ok(Type::Promise(Some(Box::new(inner_type))))
            },
            AstNode::HttpCall { .. } => {
                proof {
                    assert(infer_of(*node, self.symbol_table.symbols@)
                        == Option::Some(type_view(
                            Type::Promise(Some(Box::new(Type::Any))))));
                }
                Ok(Type::Promise(Some(Box::new(Type::Any))))
            },
            AstNode::FunctionCall { .. } => {
                proof {
                    assert(infer_of(*node, self.symbol_table.symbols@)
                        == Option::Some(type_view(
                            Type::Promise(Some(Box::new(Type::Any))))));
                }
                Ok(Type::Promise(Some(Box::new(Type::Any))))
            },
            AstNode::MemberAccess { object, property, .. } => {
                let object_type = match self.infer_type_from_ast(object) {
                    Ok(t) => t,
                    Err(e) => { return Err(e); },
                };
                proof { lemma_type_view_variants(object_type); }
                match object_type {
                    Type::Object(obj_fields) => {
                        let projected = field_type_or_any(&obj_fields, property);
                        proof {
                            assert(infer_of(*node, self.symbol_table.symbols@)
                                == Option::Some(type_view(projected)));
                        }
                        Ok(projected)
                    },
                    Type::Promise(Some(inner)) => {
                        proof { lemma_type_view_variants(*inner); }
                        match *inner {
                            Type::Object(obj_fields) => {
                                let projected = field_type_or_any(&obj_fields, property);
                                proof {
                                    assert(infer_of(*node, self.symbol_table.symbols@)
                                        == Option::Some(type_view(
                                            Type::Promise(Some(Box::new(projected))))));
                                }
                                Ok(Type::Promise(Some(Box::new(projected))))
                            },
                            _ => {
                                proof {
                                    assert(infer_of(*node, self.symbol_table.symbols@)
                                        == Option::Some(type_view(
                                            Type::Promise(Some(Box::new(Type::Any))))));
                                }
                                Ok(Type::Promise(Some(Box::new(Type::Any))))
                            },
                        }
                    },
                    Type::Promise(None) => {
                        proof {
                            assert(infer_of(*node, self.symbol_table.symbols@)
                                == Option::Some(type_view(
                                    Type::Promise(Some(Box::new(Type::Any))))));
                        }
                        Ok(Type::Promise(Some(Box::new(Type::Any))))
                    },
                    _ => {
                        proof {
                            assert(infer_of(*node, self.symbol_table.symbols@)
                                == Option::Some(type_view(Type::Any)));
                        }
                        Ok(Type::Any)
                    },
                }
            },
            _ => {
                proof {
                    if node is Program {
                    } else if node is Assignment {
                    } else if node is Endpoint {
                    } else {
                    }
                    assert(infer_of(*node, self.symbol_table.symbols@)
                        == Option::Some(type_view(Type::Any)));
                }
                Ok(Type::Any)
            },
        }
    }

    /// Pass over the symbols in resolution order: a symbol whose current
    /// type is not a promise but that depends on a symbol whose current
    /// type is one becomes a promise of its current type; every visited
    /// symbol is marked resolved. Types are only ever wrapped, a type
    /// already a promise is never re-wrapped, and a table whose
    /// promise-dependent symbols are all promises is left unchanged.
    /// Under a coherent order — duplicate-free, covering the table, each
    /// dependency before its dependent — one pass reaches that state and
    /// resolves every symbol, so a second pass changes no type.
    pub fn infer_types(&mut self, resolution_order: &Vec<String>)
        requires
            old(self).symbol_table.wf(),
        ensures
            final(self).symbol_table.wf(),
            final(self).endpoints == old(self).endpoints,
            final(self).tests == old(self).tests,
            same_shape(old(self).symbol_table.symbols@, final(self).symbol_table.symbols@),
            forall|k: int| 0 <= k < old(self).symbol_table.symbols@.len()
                ==> (#[trigger] final(self).symbol_table.symbols@[k]).symbol_type
                        == old(self).symbol_table.symbols@[k].symbol_type
                    || final(self).symbol_table.symbols@[k].symbol_type
                        == Type::Promise(Some(Box::new(
                            old(self).symbol_table.symbols@[k].symbol_type))),
            forall|k: int| 0 <= k < old(self).symbol_table.symbols@.len()
                && is_promise((#[trigger] old(self).symbol_table.symbols@[k]).symbol_type)
                ==> final(self).symbol_table.symbols@[k].symbol_type
                    == old(self).symbol_table.symbols@[k].symbol_type,
            forall|k: int| 0 <= k < old(self).symbol_table.symbols@.len()
                && (#[trigger] old(self).symbol_table.symbols@[k]).is_resolved
                ==> final(self).symbol_table.symbols@[k].is_resolved,
            (forall|k: int| 0 <= k < old(self).symbol_table.symbols@.len()
                && has_promise_dep(old(self).symbol_table.symbols@, k)
                ==> is_promise((#[trigger] old(self).symbol_table.symbols@[k]).symbol_type))
                ==> forall|k: int| 0 <= k < old(self).symbol_table.symbols@.len()
                    ==> (#[trigger] final(self).symbol_table.symbols@[k]).symbol_type
                        == old(self).symbol_table.symbols@[k].symbol_type,
            coherent_order(resolution_order@, old(self).symbol_table.symbols@)
                ==> prefix_settled(resolution_order@, resolution_order@.len() as int,
                    final(self).symbol_table.symbols@),
            coherent_order(resolution_order@, old(self).symbol_table.symbols@)
                ==> forall|k: int| 0 <= k < final(self).symbol_table.symbols@.len()
                    ==> ((has_promise_dep(final(self).symbol_table.symbols@, k)
                        ==> is_promise((#[trigger] final(self).symbol_table.symbols@[k])
                            .symbol_type))
                        && final(self).symbol_table.symbols@[k].is_resolved),
    {
        let ghost orig = self.symbol_table.symbols@;
        let mut o: usize = 0;
        while o < resolution_order.len()
            invariant
                self.symbol_table.wf(),
                o <= resolution_order@.len(),
                (*self == SemanticAnalyzer { symbol_table: self.symbol_table, ..*old(self) }),
                self.symbol_table.resolution_order == old(self).symbol_table.resolution_order,
                orig == old(self).symbol_table.symbols@,
                old(self).symbol_table.wf(),
                same_shape(orig, self.symbol_table.symbols@),
                forall|k: int| 0 <= k < orig.len()
                    ==> (#[trigger] self.symbol_table.symbols@[k]).symbol_type
                            == orig[k].symbol_type
                        || self.symbol_table.symbols@[k].symbol_type
                            == Type::Promise(Some(Box::new(orig[k].symbol_type))),
                forall|k: int| 0 <= k < orig.len()
                    && is_promise((#[trigger] orig[k]).symbol_type)
                    ==> self.symbol_table.symbols@[k].symbol_type == orig[k].symbol_type,
                forall|k: int| 0 <= k < orig.len() && (#[trigger] orig[k]).is_resolved
                    ==> self.symbol_table.symbols@[k].is_resolved,
                (forall|k: int| 0 <= k < orig.len() && has_promise_dep(orig, k)
                    ==> is_promise((#[trigger] orig[k]).symbol_type))
                    ==> forall|k: int| 0 <= k < orig.len()
                        ==> (#[trigger] self.symbol_table.symbols@[k]).symbol_type
                            == orig[k].symbol_type,
                coherent_order(resolution_order@, orig)
                    ==> prefix_settled(resolution_order@, o as int,
                        self.symbol_table.symbols@),
            decreases resolution_order@.len() - o,
        {
            let n = self.symbol_table.symbols.len();
            let mut k: usize = 0;
            let mut found: usize = n;
            while k < n
                invariant
                    k <= n,
                    n == self.symbol_table.symbols@.len(),
                    found <= n,
                    o < resolution_order@.len(),
                    (*self == SemanticAnalyzer { symbol_table: self.symbol_table, ..*old(self) }),
                    found < n ==> self.symbol_table.symbols@[found as int].name@
                        == resolution_order@[o as int]@,
                    found == n ==> forall|j: int| 0 <= j < k
                        ==> (#[trigger] self.symbol_table.symbols@[j]).name@
                            != resolution_order@[o as int]@,
                    found < n ==> found < k,
                decreases n - k,
            {
                if found == n && crate::interpreter::str_eq(
                    self.symbol_table.symbols[k].name.as_str(),
                    resolution_order[o].as_str()) {
                    found = k;
                }
                k = k + 1;
            }
            let ghost entry = self.symbol_table.symbols@;
            if found < n {
                let wraps = self.symbol_has_promise_dep(found)
                    && !matches!(self.symbol_table.symbols[found].symbol_type, Type::Promise(_));
                if wraps {
                    let ghost pre = self.symbol_table.symbols@;
                    let mut taken = Symbol::new(String::new(), Type::Any, 0);
                    self.symbol_table.symbols.set_and_swap(found, &mut taken);
                    let Symbol { name, symbol_type, is_resolved: _, dependencies, dependents,
                        definition_line, ast_node } = taken;
                    let wrapped = Symbol {
                        name,
                        symbol_type: Type::Promise(Some(Box::new(symbol_type))),
                        is_resolved: true,
                        dependencies,
                        dependents,
                        definition_line,
                        ast_node,
                    };
                    self.symbol_table.symbols.set(found, wrapped);
                    proof {
                        assert forall|a: int, b: int|
                            0 <= a < b < self.symbol_table.symbols@.len()
                            implies (#[trigger] self.symbol_table.symbols@[a]).name@
                                != (#[trigger] self.symbol_table.symbols@[b]).name@ by {
                            assert(pre[a].name@ != pre[b].name@);
                        }
                        if forall|k2: int| 0 <= k2 < orig.len() && has_promise_dep(orig, k2)
                            ==> is_promise((#[trigger] orig[k2]).symbol_type) {
                            assert forall|q: int| 0 <= q < orig.len()
                                implies (#[trigger] pre[q]).symbol_type
                                    == orig[q].symbol_type by {}
                            assert forall|q: int| 0 <= q < orig.len()
                                implies is_promise((#[trigger] orig[q]).symbol_type)
                                    == is_promise(pre[q].symbol_type) by {}
                            lemma_promise_dep_same_types(orig, pre, found as int);
                            assert(is_promise(orig[found as int].symbol_type));
                            assert(is_promise(pre[found as int].symbol_type));
                            assert(false);
                        }
                        if coherent_order(resolution_order@, orig) {
                            let cur = self.symbol_table.symbols@;
                            assert(cur[found as int].name@
                                == resolution_order@[o as int]@);
                            assert(is_promise(cur[found as int].symbol_type));
                            assert forall|o2: int, k2: int| 0 <= o2 < o as int + 1
                                && 0 <= k2 < cur.len()
                                && (#[trigger] cur[k2]).name@
                                    == (#[trigger] resolution_order@[o2])@
                                implies cur[k2].is_resolved
                                    && (has_promise_dep(cur, k2)
                                        ==> is_promise(cur[k2].symbol_type)) by {
                                if o2 == o as int {
                                    if k2 != found as int {
                                        assert(cur[k2].name@ != cur[found as int].name@);
                                    }
                                    assert(k2 == found as int);
                                } else {
                                    assert(resolution_order@[o2]@
                                        != resolution_order@[o as int]@);
                                    if k2 == found as int {
                                        assert(false);
                                    }
                                    assert(cur[k2] == pre[k2]);
                                    assert(pre[k2].is_resolved
                                        && (has_promise_dep(pre, k2)
                                            ==> is_promise(pre[k2].symbol_type)));
                                    if has_promise_dep(cur, k2) {
                                        let (d, j) = choose|d: int, j: int|
                                            0 <= d < cur[k2].dependencies@.len()
                                            && 0 <= j < cur.len()
                                            && (#[trigger] cur[j]).name@
                                                == (#[trigger] cur[k2].dependencies@[d])@
                                            && is_promise(cur[j].symbol_type);
                                        if j == found as int {
                                            assert(orig[k2].name@ == pre[k2].name@);
                                            lemma_order_respects_index(resolution_order@,
                                                orig, o2, k2);
                                            assert(orig[k2].dependencies
                                                == pre[k2].dependencies);
                                            lemma_all_in_order_index(
                                                orig[k2].dependencies@,
                                                resolution_order@.take(o2), d);
                                            let q = choose|q: int| 0 <= q
                                                < resolution_order@.take(o2).len()
                                                && (#[trigger] resolution_order@
                                                    .take(o2)[q])@
                                                    == orig[k2].dependencies@[d]@;
                                            assert(resolution_order@[q]@
                                                == resolution_order@[o as int]@);
                                            assert(resolution_order@[q]@
                                                != resolution_order@[o as int]@);
                                        }
                                        assert(cur[j] == pre[j]);
                                        assert(has_promise_dep(pre, k2));
                                        assert(is_promise(cur[k2].symbol_type));
                                    }
                                }
                            }
                            assert(prefix_settled(resolution_order@, o as int + 1, cur));
                        }
                    }
                } else {
                    let ghost pre = self.symbol_table.symbols@;
                    let ghost had_dep = has_promise_dep(pre, found as int);
                    let ghost was_promise = is_promise(pre[found as int].symbol_type);
                    let mut taken = Symbol::new(String::new(), Type::Any, 0);
                    self.symbol_table.symbols.set_and_swap(found, &mut taken);
                    let Symbol { name, symbol_type, is_resolved: _, dependencies, dependents,
                        definition_line, ast_node } = taken;
                    let marked = Symbol {
                        name,
                        symbol_type,
                        is_resolved: true,
                        dependencies,
                        dependents,
                        definition_line,
                        ast_node,
                    };
                    self.symbol_table.symbols.set(found, marked);
                    proof {
                        assert forall|a: int, b: int|
                            0 <= a < b < self.symbol_table.symbols@.len()
                            implies (#[trigger] self.symbol_table.symbols@[a]).name@
                                != (#[trigger] self.symbol_table.symbols@[b]).name@ by {
                            assert(pre[a].name@ != pre[b].name@);
                        }
                        assert(!had_dep || was_promise);
                        if coherent_order(resolution_order@, orig) {
                            let cur = self.symbol_table.symbols@;
                            assert(cur[found as int].name@
                                == resolution_order@[o as int]@);
                            assert forall|q: int| 0 <= q < cur.len()
                                implies (#[trigger] cur[q]).symbol_type
                                    == pre[q].symbol_type
                                    && cur[q].name@ == pre[q].name@
                                    && cur[q].dependencies == pre[q].dependencies by {
                                if q != found as int {
                                    assert(cur[q] == pre[q]);
                                }
                            }
                            assert forall|o2: int, k2: int| 0 <= o2 < o as int + 1
                                && 0 <= k2 < cur.len()
                                && (#[trigger] cur[k2]).name@
                                    == (#[trigger] resolution_order@[o2])@
                                implies cur[k2].is_resolved
                                    && (has_promise_dep(cur, k2)
                                        ==> is_promise(cur[k2].symbol_type)) by {
                                if o2 == o as int {
                                    if k2 != found as int {
                                        assert(cur[k2].name@ != cur[found as int].name@);
                                    }
                                    assert(k2 == found as int);
                                    if has_promise_dep(cur, k2) {
                                        let (d, j) = choose|d: int, j: int|
                                            0 <= d < cur[k2].dependencies@.len()
                                            && 0 <= j < cur.len()
                                            && (#[trigger] cur[j]).name@
                                                == (#[trigger] cur[k2].dependencies@[d])@
                                            && is_promise(cur[j].symbol_type);
                                        assert(pre[j].name@
                                            == pre[k2].dependencies@[d]@
                                            && is_promise(pre[j].symbol_type));
                                        assert(had_dep);
                                        assert(was_promise);
                                        assert(is_promise(cur[k2].symbol_type));
                                    }
                                } else {
                                    if k2 == found as int {
                                        assert(resolution_order@[o2]@
                                            != resolution_order@[o as int]@);
                                        assert(false);
                                    }
                                    assert(cur[k2] == pre[k2]);
                                    assert(pre[k2].is_resolved
                                        && (has_promise_dep(pre, k2)
                                            ==> is_promise(pre[k2].symbol_type)));
                                    if has_promise_dep(cur, k2) {
                                        let (d, j) = choose|d: int, j: int|
                                            0 <= d < cur[k2].dependencies@.len()
                                            && 0 <= j < cur.len()
                                            && (#[trigger] cur[j]).name@
                                                == (#[trigger] cur[k2].dependencies@[d])@
                                            && is_promise(cur[j].symbol_type);
                                        assert(pre[j].name@
                                            == pre[k2].dependencies@[d]@
                                            && is_promise(pre[j].symbol_type));
                                        assert(has_promise_dep(pre, k2));
                                        assert(is_promise(cur[k2].symbol_type));
                                    }
                                }
                            }
                            assert(prefix_settled(resolution_order@, o as int + 1, cur));
                        }
                    }
                }
            } else {
                proof {
                    if coherent_order(resolution_order@, orig) {
                        let cur = self.symbol_table.symbols@;
                        assert forall|o2: int, k2: int| 0 <= o2 < o as int + 1
                            && 0 <= k2 < cur.len()
                            && (#[trigger] cur[k2]).name@
                                == (#[trigger] resolution_order@[o2])@
                            implies cur[k2].is_resolved
                                && (has_promise_dep(cur, k2)
                                    ==> is_promise(cur[k2].symbol_type)) by {
                            if o2 == o as int {
                                assert(0 <= k2 < n as int);
                                assert((#[trigger] self.symbol_table.symbols@[k2]).name@
                                    != resolution_order@[o as int]@);
                            }
                        }
                        assert(prefix_settled(resolution_order@, o as int + 1, cur));
                    }
                }
            }
            o = o + 1;
        }
        proof {
            if coherent_order(resolution_order@, orig) {
                let fin = self.symbol_table.symbols@;
                assert forall|k: int| 0 <= k < fin.len()
                    implies ((has_promise_dep(fin, k)
                        ==> is_promise((#[trigger] fin[k]).symbol_type))
                        && fin[k].is_resolved) by {
                    assert(orig[k].name@ == fin[k].name@);
                    let i = choose|i: int| 0 <= i < resolution_order@.len()
                        && (#[trigger] orig[k]).name@ == resolution_order@[i]@;
                    assert(fin[k].name@ == resolution_order@[i]@);
                }
            }
        }
    }

    /// Whether some dependency of the symbol at the index names a symbol
    /// whose current type is a promise.
    fn symbol_has_promise_dep(&self, k: usize) -> (r: bool)
        requires
            k < self.symbol_table.symbols@.len(),
        ensures
            r == has_promise_dep(self.symbol_table.symbols@, k as int),
    {
        let symbols = &self.symbol_table.symbols;
        let deps = &symbols[k].dependencies;
        let mut d: usize = 0;
        while d < deps.len()
            invariant
                d <= deps@.len(),
                k < symbols@.len(),
                symbols == &self.symbol_table.symbols,
                deps == &symbols@[k as int].dependencies,
                forall|d2: int, j: int| 0 <= d2 < d && 0 <= j < symbols@.len()
                    && (#[trigger] symbols@[j]).name@ == (#[trigger] deps@[d2])@
                    ==> !is_promise(symbols@[j].symbol_type),
            decreases deps@.len() - d,
        {
            let mut j: usize = 0;
            while j < symbols.len()
                invariant
                    j <= symbols@.len(),
                    d < deps@.len(),
                    k < symbols@.len(),
                    symbols == &self.symbol_table.symbols,
                    deps == &symbols@[k as int].dependencies,
                    forall|j2: int| 0 <= j2 < j
                        && (#[trigger] symbols@[j2]).name@ == deps@[d as int]@
                        ==> !is_promise(symbols@[j2].symbol_type),
                decreases symbols@.len() - j,
            {
                if crate::interpreter::str_eq(symbols[j].name.as_str(), deps[d].as_str()) {
                    if matches!(&symbols[j].symbol_type, Type::Promise(_)) {
                        proof {
                            assert(symbols@[j as int].name@ == deps@[d as int]@);
                            assert((#[trigger] self.symbol_table.symbols@[j as int]).name@
                                == (#[trigger] self.symbol_table.symbols@[k as int]
                                    .dependencies@[d as int])@
                                && is_promise(self.symbol_table.symbols@[j as int].symbol_type));
                            assert(has_promise_dep(self.symbol_table.symbols@, k as int));
                        }
                        return true;
                    }
                }
                j = j + 1;
            }
            d = d + 1;
        }
        proof {
            if has_promise_dep(self.symbol_table.symbols@, k as int) {
                let (d2, j2) = choose|d2: int, j2: int|
                    0 <= d2 < symbols@[k as int].dependencies@.len()
                    && 0 <= j2 < symbols@.len()
                    && (#[trigger] symbols@[j2]).name@
                        == (#[trigger] symbols@[k as int].dependencies@[d2])@
                    && is_promise(symbols@[j2].symbol_type);
                assert(false);
            }
        }
        false
    }

    /// Validation: every name in any symbol's dependency set must name a
    /// table symbol, else the undefined-symbol error; any two endpoints
    /// with the same method and path but different names are the
    /// duplicate-endpoint error. Success exactly when neither occurs.
    pub fn validate_program(&self) -> (r: Result<(), AnalyzerError>)
        ensures
            match r {
                Result::Ok(()) => deps_all_defined(self.symbol_table.symbols@)
                    && endpoints_distinct(self.endpoints@),
                Result::Err(e) => match e {
                    AnalyzerError::UndefinedSymbol { .. } =>
                        !deps_all_defined(self.symbol_table.symbols@),
                    AnalyzerError::DuplicateEndpoint { .. } =>
                        !endpoints_distinct(self.endpoints@),
                    _ => false,
                },
            },
    {
        let mut k: usize = 0;
        while k < self.symbol_table.symbols.len()
            invariant
                k <= self.symbol_table.symbols@.len(),
                forall|k2: int, d: int| 0 <= k2 < k
                    && 0 <= d < self.symbol_table.symbols@[k2].dependencies@.len()
                    ==> exists|j: int| 0 <= j < self.symbol_table.symbols@.len()
                        && (#[trigger] self.symbol_table.symbols@[j]).name@
                            == (#[trigger] self.symbol_table.symbols@[k2].dependencies@[d])@,
            decreases self.symbol_table.symbols@.len() - k,
        {
            let mut d: usize = 0;
            while d < self.symbol_table.symbols[k].dependencies.len()
                invariant
                    k < self.symbol_table.symbols@.len(),
                    d <= self.symbol_table.symbols@[k as int].dependencies@.len(),
                    forall|k2: int, d2: int| 0 <= k2 < k
                        && 0 <= d2 < self.symbol_table.symbols@[k2].dependencies@.len()
                        ==> exists|j: int| 0 <= j < self.symbol_table.symbols@.len()
                            && (#[trigger] self.symbol_table.symbols@[j]).name@
                                == (#[trigger] self.symbol_table.symbols@[k2].dependencies@[d2])@,
                    forall|d2: int| 0 <= d2 < d
                        ==> exists|j: int| 0 <= j < self.symbol_table.symbols@.len()
                            && (#[trigger] self.symbol_table.symbols@[j]).name@
                                == (#[trigger] self.symbol_table.symbols@[k as int].dependencies@[d2])@,
                decreases self.symbol_table.symbols@[k as int].dependencies@.len() - d,
            {
                if self.symbol_table.get_symbol(
                    self.symbol_table.symbols[k].dependencies[d].as_str()).is_none() {
                    proof {
                        assert(!(exists|j: int| 0 <= j < self.symbol_table.symbols@.len()
                            && (#[trigger] self.symbol_table.symbols@[j]).name@
                                == self.symbol_table.symbols@[k as int].dependencies@[d as int]@))
                            by {
                            if exists|j: int| 0 <= j < self.symbol_table.symbols@.len()
                                && (#[trigger] self.symbol_table.symbols@[j]).name@
                                    == self.symbol_table.symbols@[k as int]
                                        .dependencies@[d as int]@ {
                                let j = choose|j: int|
                                    0 <= j < self.symbol_table.symbols@.len()
                                    && (#[trigger] self.symbol_table.symbols@[j]).name@
                                        == self.symbol_table.symbols@[k as int]
                                            .dependencies@[d as int]@;
                                assert(self.symbol_table.spec_has(
                                    self.symbol_table.symbols@[k as int]
                                        .dependencies@[d as int]@));
                            }
                        }
                    }
                    return Err(AnalyzerError::UndefinedSymbol {
                        name: self.symbol_table.symbols[k].dependencies[d].clone(),
                        line: self.symbol_table.symbols[k].definition_line,
                    });
                }
                proof {
                    let j = choose|j: int| 0 <= j < self.symbol_table.symbols@.len()
                        && (#[trigger] self.symbol_table.symbols@[j]).name@
                            == self.symbol_table.symbols@[k as int].dependencies@[d as int]@;
                    assert(self.symbol_table.symbols@[j].name@
                        == self.symbol_table.symbols@[k as int].dependencies@[d as int]@);
                }
                d = d + 1;
            }
            k = k + 1;
        }
        let mut a: usize = 0;
        while a < self.endpoints.len()
            invariant
                a <= self.endpoints@.len(),
                forall|a2: int, b2: int| 0 <= a2 < a && 0 <= b2 < self.endpoints@.len()
                    && a2 != b2
                    ==> !conflicting_endpoints(#[trigger] self.endpoints@[a2],
                        #[trigger] self.endpoints@[b2]),
            decreases self.endpoints@.len() - a,
        {
            let mut b: usize = 0;
            while b < self.endpoints.len()
                invariant
                    b <= self.endpoints@.len(),
                    a < self.endpoints@.len(),
                    forall|a2: int, b2: int| 0 <= a2 < a && 0 <= b2 < self.endpoints@.len()
                        && a2 != b2
                        ==> !conflicting_endpoints(#[trigger] self.endpoints@[a2],
                            #[trigger] self.endpoints@[b2]),
                    forall|b2: int| 0 <= b2 < b && a != b2
                        ==> !conflicting_endpoints(self.endpoints@[a as int],
                            #[trigger] self.endpoints@[b2]),
                decreases self.endpoints@.len() - b,
            {
                if b != a {
                    if !crate::interpreter::str_eq(self.endpoints[a].name.as_str(),
                            self.endpoints[b].name.as_str())
                        && self.endpoints[a].method == self.endpoints[b].method
                        && crate::interpreter::str_eq(self.endpoints[a].path.as_str(),
                            self.endpoints[b].path.as_str()) {
                        proof {
                            assert(conflicting_endpoints(self.endpoints@[a as int],
                                self.endpoints@[b as int]));
                        }
                        return Err(AnalyzerError::DuplicateEndpoint {
                            name: self.endpoints[a].name.clone(),
                            method: self.endpoints[a].method.describe().to_owned(),
                            path: self.endpoints[a].path.clone(),
                            line: self.endpoints[a].line,
                        });
                    }
                    proof {
                        assert(!conflicting_endpoints(self.endpoints@[a as int],
                            self.endpoints@[b as int]));
                    }
                }
                b = b + 1;
            }
            proof {
                assert forall|a2: int, b2: int| 0 <= a2 < a + 1
                    && 0 <= b2 < self.endpoints@.len() && a2 != b2
                    implies !conflicting_endpoints(#[trigger] self.endpoints@[a2],
                        #[trigger] self.endpoints@[b2]) by {
                    if a2 == a {
                        assert(!conflicting_endpoints(self.endpoints@[a as int],
                            self.endpoints@[b2]));
                    }
                }
            }
            a = a + 1;
        }
        Ok(())
    }
}

/// Two endpoints under different names that share a method and a path.
pub open spec fn conflicting_endpoints(a: EndpointInfo, b: EndpointInfo) -> bool {
    a.name@ != b.name@ && a.method == b.method && a.path@ == b.path@
}

/// Every dependency name of every symbol names a table symbol.
pub open spec fn deps_all_defined(symbols: Seq<Symbol>) -> bool {
    forall|k: int, d: int| 0 <= k < symbols.len()
        && 0 <= d < symbols[k].dependencies@.len()
        ==> exists|j: int| 0 <= j < symbols.len()
            && (#[trigger] symbols[j]).name@ == (#[trigger] symbols[k].dependencies@[d])@
}

/// Definedness of dependencies reads only names and dependency sets, so
/// it carries across tables of the same shape.
pub proof fn lemma_deps_all_defined_same_shape(a: Seq<Symbol>, b: Seq<Symbol>)
    requires
        deps_all_defined(a),
        same_shape(a, b),
    ensures
        deps_all_defined(b),
{
    assert forall|k: int, d: int| 0 <= k < b.len()
        && 0 <= d < b[k].dependencies@.len()
        implies exists|j: int| 0 <= j < b.len()
            && (#[trigger] b[j]).name@ == (#[trigger] b[k].dependencies@[d])@ by {
        assert(a[k].dependencies == b[k].dependencies);
        assert(0 <= d < a[k].dependencies@.len());
        let j = choose|j: int| 0 <= j < a.len()
            && (#[trigger] a[j]).name@ == (#[trigger] a[k].dependencies@[d])@;
        assert(b[j].name@ == a[j].name@);
        assert(b[j].name@ == b[k].dependencies@[d]@);
    }
}

/// No two endpoints with different names share a method and a path.
pub open spec fn endpoints_distinct(endpoints: Seq<EndpointInfo>) -> bool {
    forall|a: int, b: int| 0 <= a < endpoints.len() && 0 <= b < endpoints.len() && a != b
        ==> !conflicting_endpoints(#[trigger] endpoints[a], #[trigger] endpoints[b])
}

/// Same-shaped tables have the same promise-dependency facts once their
/// types agree.
proof fn lemma_promise_dep_same_types(a: Seq<Symbol>, b: Seq<Symbol>, k: int)
    requires
        0 <= k < a.len(),
        a.len() == b.len(),
        forall|q: int| 0 <= q < a.len() ==> (#[trigger] a[q]).name == b[q].name
            && a[q].dependencies == b[q].dependencies,
        forall|q: int| 0 <= q < a.len()
            ==> is_promise((#[trigger] a[q]).symbol_type) == is_promise(b[q].symbol_type),
        has_promise_dep(b, k),
    ensures
        has_promise_dep(a, k),
{
    let (d, j) = choose|d: int, j: int| 0 <= d < b[k].dependencies@.len()
        && 0 <= j < b.len()
        && (#[trigger] b[j]).name@ == (#[trigger] b[k].dependencies@[d])@
        && is_promise(b[j].symbol_type);
    assert(a[j].name@ == a[k].dependencies@[d]@);
    assert(is_promise(a[j].symbol_type));
}

/// The type an object's field carries, or any when the field is absent.
/// The position of the symbol carrying the name.
pub open spec fn table_index_of(symbols: Seq<Symbol>, name: Seq<char>) -> int {
    choose|j: int| 0 <= j < symbols.len() && (#[trigger] symbols[j]).name@ == name
}

/// The inferred shape of an expression against a symbol table: literals
/// type as themselves, a known identifier as its symbol, an unknown one as
/// anything, an array by its first element, an object field by field,
/// calls as promises of anything, a promise by its inner expression, and
/// member access by projection with promise lifting; nothing, where the
/// operator rules reject the operand types.
pub open spec fn infer_of(node: AstNode, symbols: Seq<Symbol>) -> Option<TypeV>
    decreases node,
{
    match node {
        AstNode::String(_) => Option::Some(TypeV::StringV),
        AstNode::Number(_) => Option::Some(TypeV::NumberV),
        AstNode::Boolean(_) => Option::Some(TypeV::BooleanV),
        AstNode::Null => Option::Some(TypeV::NullV),
        AstNode::Identifier(name) => Option::Some(
            if exists|j: int| 0 <= j < symbols.len()
                && (#[trigger] symbols[j]).name@ == name@ {
                type_view(symbols[table_index_of(symbols, name@)].symbol_type)
            } else {
                TypeV::AnyV
            }),
        AstNode::Binary { left, right, operator, .. } => match (infer_of(*left, symbols),
            infer_of(*right, symbols)) {
            (Option::Some(lt), Option::Some(rt)) => binary_type_of(lt, rt, operator),
            _ => Option::None,
        },
        AstNode::Unary { operand, operator, .. } => match infer_of(*operand, symbols) {
            Option::Some(t) => Option::Some(match operator {
                UnaryOp::Negate => match t {
                    TypeV::NumberV => TypeV::NumberV,
                    TypeV::PromiseV(Option::Some(inner)) => if *inner is NumberV {
                        TypeV::PromiseV(Option::Some(Box::new(TypeV::NumberV)))
                    } else {
                        TypeV::AnyV
                    },
                    _ => TypeV::AnyV,
                },
                UnaryOp::Not => TypeV::BooleanV,
            }),
            Option::None => Option::None,
        },
        AstNode::Array { elements, .. } => if elements@.len() == 0 {
            Option::Some(TypeV::ArrayV(Box::new(TypeV::AnyV)))
        } else {
            match infer_of(elements@[0], symbols) {
                Option::Some(t) => Option::Some(TypeV::ArrayV(Box::new(t))),
                Option::None => Option::None,
            }
        },
        AstNode::Object { fields, .. } => match infer_fields_of(fields@, symbols) {
            Option::Some(fs) => Option::Some(TypeV::ObjectV(fs)),
            Option::None => Option::None,
        },
        AstNode::Promise { expression, .. } => match infer_of(*expression, symbols) {
            Option::Some(t) => Option::Some(TypeV::PromiseV(Option::Some(Box::new(t)))),
            Option::None => Option::None,
        },
        AstNode::HttpCall { .. } => Option::Some(
            TypeV::PromiseV(Option::Some(Box::new(TypeV::AnyV)))),
        AstNode::FunctionCall { .. } => Option::Some(
            TypeV::PromiseV(Option::Some(Box::new(TypeV::AnyV)))),
        AstNode::MemberAccess { object, property, .. } => match infer_of(*object, symbols) {
            Option::Some(ot) => Option::Some(match ot {
                TypeV::ObjectV(fs) => field_shape_or_any(fs, property@),
                TypeV::PromiseV(Option::Some(inner)) => match *inner {
                    TypeV::ObjectV(fs) => TypeV::PromiseV(Option::Some(Box::new(
                        field_shape_or_any(fs, property@)))),
                    _ => TypeV::PromiseV(Option::Some(Box::new(TypeV::AnyV))),
                },
                TypeV::PromiseV(Option::None) => TypeV::PromiseV(Option::Some(Box::new(
                    TypeV::AnyV))),
                _ => TypeV::AnyV,
            }),
            Option::None => Option::None,
        },
        _ => Option::Some(TypeV::AnyV),
    }
}

/// The inferred shapes of an object's fields, in order; nothing if any
/// field's expression is rejected.
pub open spec fn infer_fields_of(fields: Seq<(String, AstNode)>, symbols: Seq<Symbol>)
    -> Option<Seq<(Seq<char>, TypeV)>>
    decreases fields,
{
    if fields.len() == 0 {
        Option::Some(Seq::empty())
    } else {
        match (infer_fields_of(fields.drop_last(), symbols),
            infer_of(fields.last().1, symbols)) {
            (Option::Some(fs), Option::Some(t)) => Option::Some(
                fs.push((fields.last().0@, t))),
            _ => Option::None,
        }
    }
}

/// The shape of the first field carrying the key, or anything.
pub open spec fn field_shape_or_any(fs: Seq<(Seq<char>, TypeV)>, key: Seq<char>) -> TypeV
    decreases fs,
{
    if fs.len() == 0 {
        TypeV::AnyV
    } else if fs[0].0 == key {
        fs[0].1
    } else {
        field_shape_or_any(fs.drop_first(), key)
    }
}

/// The shape of a binary operation's result under the promotion rules;
/// nothing, where the operands are rejected.
pub open spec fn binary_type_of(lt: TypeV, rt: TypeV, operator: BinaryOp) -> Option<TypeV> {
    match operator {
        BinaryOp::Equal => Option::Some(TypeV::BooleanV),
        BinaryOp::Add => Option::Some(match (lt, rt) {
            (TypeV::NumberV, TypeV::NumberV) => TypeV::NumberV,
            (TypeV::StringV, _) => TypeV::StringV,
            (_, TypeV::StringV) => TypeV::StringV,
            (TypeV::PromiseV(_), _) => TypeV::PromiseV(Option::Some(Box::new(TypeV::AnyV))),
            (_, TypeV::PromiseV(_)) => TypeV::PromiseV(Option::Some(Box::new(TypeV::AnyV))),
            _ => TypeV::AnyV,
        }),
        _ => match (lt, rt) {
            (TypeV::NumberV, TypeV::NumberV) => Option::Some(TypeV::NumberV),
            (TypeV::PromiseV(_), TypeV::PromiseV(_)) => Option::Some(
                TypeV::PromiseV(Option::Some(Box::new(TypeV::NumberV)))),
            (TypeV::PromiseV(inner), TypeV::NumberV) => match inner {
                Option::Some(t) => if *t is NumberV {
                    Option::Some(TypeV::PromiseV(Option::Some(Box::new(TypeV::NumberV))))
                } else {
                    Option::None
                },
                Option::None => Option::Some(
                    TypeV::PromiseV(Option::Some(Box::new(TypeV::NumberV)))),
            },
            (TypeV::NumberV, TypeV::PromiseV(inner)) => match inner {
                Option::Some(t) => if *t is NumberV {
                    Option::Some(TypeV::PromiseV(Option::Some(Box::new(TypeV::NumberV))))
                } else {
                    Option::None
                },
                Option::None => Option::Some(
                    TypeV::PromiseV(Option::Some(Box::new(TypeV::NumberV)))),
            },
            _ => Option::None,
        },
    }
}

/// The recorded field shapes are the fields' shapes, index by index.
proof fn lemma_views_of_type_fields_index(fields: Seq<(String, Type)>, j: int)
    requires
        0 <= j < fields.len(),
    ensures
        views_of_type_fields(fields).len() == fields.len(),
        views_of_type_fields(fields)[j] == (fields[j].0@, type_view(fields[j].1)),
    decreases fields,
{
    lemma_views_of_type_fields_len(fields);
    lemma_views_of_type_fields_len(fields.drop_last());
    if j < fields.len() - 1 {
        assert(fields.drop_last()[j] == fields[j]);
        lemma_views_of_type_fields_index(fields.drop_last(), j);
    } else {
        assert(fields.last() == fields[j]);
    }
}

/// The recorded field shapes have one entry per field.
proof fn lemma_views_of_type_fields_len(fields: Seq<(String, Type)>)
    ensures
        views_of_type_fields(fields).len() == fields.len(),
    decreases fields,
{
    if fields.len() > 0 {
        lemma_views_of_type_fields_len(fields.drop_last());
    }
}

/// The first key match decides the projected shape.
proof fn lemma_field_shape_at(fs: Seq<(Seq<char>, TypeV)>, key: Seq<char>, i: int)
    requires
        0 <= i < fs.len(),
        fs[i].0 == key,
        forall|j: int| 0 <= j < i ==> (#[trigger] fs[j]).0 != key,
    ensures
        field_shape_or_any(fs, key) == fs[i].1,
    decreases i,
{
    if i > 0 {
        assert(fs[0].0 != key);
        assert(fs.drop_first()[i - 1] == fs[i]);
        assert forall|j: int| 0 <= j < i - 1
            implies (#[trigger] fs.drop_first()[j]).0 != key by {
            assert(fs.drop_first()[j] == fs[j + 1]);
        }
        lemma_field_shape_at(fs.drop_first(), key, i - 1);
    }
}

/// Without a key match the projection is anything.
proof fn lemma_field_shape_none(fs: Seq<(Seq<char>, TypeV)>, key: Seq<char>)
    requires
        forall|j: int| 0 <= j < fs.len() ==> (#[trigger] fs[j]).0 != key,
    ensures
        field_shape_or_any(fs, key) == TypeV::AnyV,
    decreases fs,
{
    if fs.len() > 0 {
        assert forall|j: int| 0 <= j < fs.drop_first().len()
            implies (#[trigger] fs.drop_first()[j]).0 != key by {
            assert(fs.drop_first()[j] == fs[j + 1]);
        }
        lemma_field_shape_none(fs.drop_first(), key);
    }
}

/// A rejected field rejects the object, whatever follows it.
proof fn lemma_infer_fields_none(fields: Seq<(String, AstNode)>, symbols: Seq<Symbol>, i: int)
    requires
        0 <= i < fields.len(),
        infer_of(fields[i].1, symbols) is None,
    ensures
        infer_fields_of(fields, symbols) is None,
    decreases fields,
{
    if i < fields.len() - 1 {
        assert(fields.drop_last()[i] == fields[i]);
        lemma_infer_fields_none(fields.drop_last(), symbols, i);
    }
}

fn field_type_or_any(fields: &Vec<(String, Type)>, property: &String) -> (r: Type)
    ensures
        type_view(r) == field_shape_or_any(views_of_type_fields(fields@), property@),
{
    let mut i: usize = 0;
    while i < fields.len()
        invariant
            i <= fields@.len(),
            forall|j: int| 0 <= j < i ==> (#[trigger] fields@[j]).0@ != property@,
        decreases fields@.len() - i,
    {
        if crate::interpreter::str_eq(fields[i].0.as_str(), property.as_str()) {
            proof {
                lemma_views_of_type_fields_len(fields@);
                assert forall|j: int| 0 <= j <= i as int
                    implies #[trigger] views_of_type_fields(fields@)[j]
                        == (fields@[j].0@, type_view(fields@[j].1)) by {
                    lemma_views_of_type_fields_index(fields@, j);
                }
                lemma_field_shape_at(views_of_type_fields(fields@), property@, i as int);
            }
            return fields[i].1.clone();
        }
        i = i + 1;
    }
    proof {
        lemma_views_of_type_fields_len(fields@);
        assert forall|j: int| 0 <= j < fields@.len()
            implies (#[trigger] views_of_type_fields(fields@)[j]).0 != property@ by {
            lemma_views_of_type_fields_index(fields@, j);
        }
        lemma_field_shape_none(views_of_type_fields(fields@), property@);
    }
    Type::Any
}

/// The result type of a binary operation under the promotion rules with
/// promise lifting: addition admits numbers and strings, the other
/// arithmetic operators admit numbers only; equality compares to a boolean.
#[verifier::rlimit(100)]
#[verifier::spinoff_prover]
fn infer_binary_type(left_type: &Type, right_type: &Type, operator: BinaryOp, line: usize)
    -> (r: Result<Type, AnalyzerError>)
    ensures
        operator is Equal ==> r == Result::<Type, AnalyzerError>::Ok(Type::Boolean),
        left_type is Number && right_type is Number && !(operator is Equal)
            ==> r == Result::<Type, AnalyzerError>::Ok(Type::Number),
        r matches Result::Err(e) ==> e matches AnalyzerError::TypeError { .. },
        r matches Result::Ok(t) ==> binary_type_of(type_view(*left_type),
            type_view(*right_type), operator) == Option::Some(type_view(t)),
        r is Err ==> binary_type_of(type_view(*left_type), type_view(*right_type),
            operator) is None,
{
    proof {
        lemma_type_view_variants(*left_type);
        lemma_type_view_variants(*right_type);
        if left_type is Number && right_type is Number && operator is Add {
            assert(binary_type_of(type_view(*left_type), type_view(*right_type), operator)
                == Option::Some(TypeV::NumberV));
        }
        if left_type is Boolean && right_type is Number && operator is Add {
            assert(binary_type_of(type_view(*left_type), type_view(*right_type), operator)
                == Option::Some(TypeV::AnyV));
        }
        if left_type is Boolean && right_type is Number && operator is Subtract {
            assert(binary_type_of(type_view(*left_type), type_view(*right_type), operator)
                is None);
        }
    }
    let result = match operator {
        BinaryOp::Equal => {
            proof {
                assert(binary_type_of(type_view(*left_type), type_view(*right_type), operator)
                    == Option::Some(type_view(Type::Boolean)));
            }
            Ok(Type::Boolean)
        },
        BinaryOp::Add => match (left_type, right_type) {
            (Type::Number, Type::Number) => {
                proof {
                    assert(binary_type_of(type_view(*left_type), type_view(*right_type),
                        operator) == Option::Some(type_view(Type::Number)));
                }
                Ok(Type::Number)
            },
            (Type::String, _) => {
                proof {
                    assert(binary_type_of(type_view(*left_type), type_view(*right_type),
                        operator) == Option::Some(type_view(Type::String)));
                }
                Ok(Type::String)
            },
            (_, Type::String) => {
                proof {
                    assert(binary_type_of(type_view(*left_type), type_view(*right_type),
                        operator) == Option::Some(type_view(Type::String)));
                }
                Ok(Type::String)
            },
            (Type::Promise(_), _) => {
                proof {
                    assert(binary_type_of(type_view(*left_type), type_view(*right_type),
                        operator) == Option::Some(type_view(
                            Type::Promise(Some(Box::new(Type::Any))))));
                }
                Ok(Type::Promise(Some(Box::new(Type::Any))))
            },
            (_, Type::Promise(_)) => {
                proof {
                    assert(binary_type_of(type_view(*left_type), type_view(*right_type),
                        operator) == Option::Some(type_view(
                            Type::Promise(Some(Box::new(Type::Any))))));
                }
                Ok(Type::Promise(Some(Box::new(Type::Any))))
            },
            _ => {
                proof {
                    assert(binary_type_of(type_view(*left_type), type_view(*right_type),
                        operator) == Option::Some(type_view(Type::Any)));
                }
                Ok(Type::Any)
            },
        },
        _ => match (left_type, right_type) {
            (Type::Number, Type::Number) => {
                proof {
                    assert(binary_type_of(type_view(*left_type), type_view(*right_type),
                        operator) == Option::Some(type_view(Type::Number)));
                }
                Ok(Type::Number)
            },
            (Type::Promise(_), Type::Promise(_)) => {
                proof {
                    assert(binary_type_of(type_view(*left_type), type_view(*right_type),
                        operator) == Option::Some(type_view(
                            Type::Promise(Some(Box::new(Type::Number))))));
                }
                Ok(Type::Promise(Some(Box::new(Type::Number))))
            },
            (Type::Promise(inner), Type::Number) => match inner {
                Some(t) => {
                    proof {
                        lemma_type_view_variants(**t);
                        assert(type_view(*left_type)
                            == TypeV::PromiseV(Option::Some(Box::new(type_view(**t)))));
                    }
                    if matches!(&**t, Type::Number) {
                        proof {
                            assert(binary_type_of(type_view(*left_type),
                                type_view(*right_type), operator)
                                == Option::Some(type_view(
                                    Type::Promise(Some(Box::new(Type::Number))))));
                        }
                        Ok(Type::Promise(Some(Box::new(Type::Number))))
                    } else {
                        proof {
                            assert(binary_type_of(type_view(*left_type),
                                type_view(*right_type), operator) is None);
                        }
                        Err(AnalyzerError::TypeError {
                            expected: "number".to_owned(),
                            found: (**t).describe(),
                            line,
                        })
                    }
                },
                None => {
                    proof {
                        assert(binary_type_of(type_view(*left_type),
                            type_view(*right_type), operator)
                            == Option::Some(type_view(
                                Type::Promise(Some(Box::new(Type::Number))))));
                    }
                    Ok(Type::Promise(Some(Box::new(Type::Number))))
                },
            },
            (Type::Number, Type::Promise(inner)) => match inner {
                Some(t) => {
                    proof {
                        lemma_type_view_variants(**t);
                        assert(type_view(*right_type)
                            == TypeV::PromiseV(Option::Some(Box::new(type_view(**t)))));
                    }
                    if matches!(&**t, Type::Number) {
                        proof {
                            assert(binary_type_of(type_view(*left_type),
                                type_view(*right_type), operator)
                                == Option::Some(type_view(
                                    Type::Promise(Some(Box::new(Type::Number))))));
                        }
                        Ok(Type::Promise(Some(Box::new(Type::Number))))
                    } else {
                        proof {
                            assert(binary_type_of(type_view(*left_type),
                                type_view(*right_type), operator) is None);
                        }
                        Err(AnalyzerError::TypeError {
                            expected: "number".to_owned(),
                            found: (**t).describe(),
                            line,
                        })
                    }
                },
                None => {
                    proof {
                        assert(binary_type_of(type_view(*left_type),
                            type_view(*right_type), operator)
                            == Option::Some(type_view(
                                Type::Promise(Some(Box::new(Type::Number))))));
                    }
                    Ok(Type::Promise(Some(Box::new(Type::Number))))
                },
            },
            (l, r2) => {
                proof {
                    assert(binary_type_of(type_view(*left_type), type_view(*right_type),
                        operator) is None);
                }
                let mut found = l.describe();
                found.append(" and ");
                found.append(r2.describe().as_str());
                Err(AnalyzerError::TypeError {
                    expected: "number".to_owned(),
                    found,
                    line,
                })
            },
        },
    };
    result
}

/// The names an expression reads, each once: an identifier contributes
/// itself, compound expressions the union of their children, literals
/// nothing.
pub fn collect_dependencies(node: &AstNode) -> (r: Vec<String>)
    ensures
        forall|i: int, j: int| 0 <= i < j < r@.len() ==> (#[trigger] r@[i])@ != (#[trigger] r@[j])@,
        forall|i: int| 0 <= i < r@.len() ==> crate::ast::deps_of(*node).contains((#[trigger] r@[i])@),
        forall|n: Seq<char>| crate::ast::deps_of(*node).contains(n)
            ==> exists|i: int| 0 <= i < r@.len() && (#[trigger] r@[i])@ == n,
{
    let mut acc: Vec<String> = Vec::new();
    collect_deps_into(node, &mut acc);
    proof {
        assert(name_set(acc@) =~= crate::ast::deps_of(*node));
        assert forall|i: int| 0 <= i < acc@.len()
            implies crate::ast::deps_of(*node).contains((#[trigger] acc@[i])@) by {
            assert(name_set(acc@).contains(acc@[i]@));
        }
        assert forall|n: Seq<char>| crate::ast::deps_of(*node).contains(n)
            implies exists|i: int| 0 <= i < acc@.len() && (#[trigger] acc@[i])@ == n by {
            assert(name_set(acc@).contains(n));
        }
    }
    acc
}

/// The set of name views a list of names holds.
pub open spec fn name_set(names: Seq<String>) -> Set<Seq<char>> {
    Set::new(|n: Seq<char>| exists|i: int| 0 <= i < names.len()
        && (#[trigger] names[i])@ == n)
}

/// Walk an expression, adding each name it reads to the accumulator once.
fn collect_deps_into(node: &AstNode, acc: &mut Vec<String>)
    requires
        forall|i: int, j: int| 0 <= i < j < old(acc)@.len()
            ==> (#[trigger] old(acc)@[i])@ != (#[trigger] old(acc)@[j])@,
    ensures
        forall|i: int, j: int| 0 <= i < j < final(acc)@.len()
            ==> (#[trigger] final(acc)@[i])@ != (#[trigger] final(acc)@[j])@,
        name_set(final(acc)@) == name_set(old(acc)@) + crate::ast::deps_of(*node),
    decreases node,
{
    match node {
        AstNode::Identifier(name) => {
            push_name(acc, name);
            proof {
                assert(name_set(acc@) =~= name_set(old(acc)@)
                    + crate::ast::deps_of(*node));
            }
        },
        AstNode::Binary { left, right, .. } => {
            collect_deps_into(left, acc);
            collect_deps_into(right, acc);
            proof {
                assert(name_set(acc@) =~= name_set(old(acc)@) + crate::ast::deps_of(*node));
            }
        },
        AstNode::Unary { operand, .. } => {
            collect_deps_into(operand, acc);
            proof {
                assert(name_set(acc@) =~= name_set(old(acc)@) + crate::ast::deps_of(*node));
            }
        },
        AstNode::MemberAccess { object, .. } => {
            collect_deps_into(object, acc);
            proof {
                assert(name_set(acc@) =~= name_set(old(acc)@) + crate::ast::deps_of(*node));
            }
        },
        AstNode::Object { fields, .. } => {
            let mut i: usize = 0;
            while i < fields.len()
                invariant
                    i <= fields@.len(),
                    (node matches AstNode::Object { fields: held, .. } && held == fields),
                    forall|a: int, b: int| 0 <= a < b < acc@.len()
                        ==> (#[trigger] acc@[a])@ != (#[trigger] acc@[b])@,
                    name_set(acc@) == name_set(old(acc)@)
                        + crate::ast::deps_of_pairs(fields@.take(i as int)),
                decreases fields@.len() - i,
            {
                proof {
                    assert(decreases_to!(*node => fields@[i as int].1)) by {
                        assert(decreases_to!(*node => node->fields));
                        assert(node->fields == *fields);
                        assert(decreases_to!(*fields => fields@));
                        assert(decreases_to!(fields@ => fields@[i as int]));
                        assert(decreases_to!(fields@[i as int] => fields@[i as int].1));
                    }
                }
                collect_deps_into(&fields[i].1, acc);
                proof {
                    assert(fields@.take(i as int + 1).drop_last() =~= fields@.take(i as int));
                    assert(fields@.take(i as int + 1).last() == fields@[i as int]);
                    assert(name_set(acc@) =~= name_set(old(acc)@)
                        + crate::ast::deps_of_pairs(fields@.take(i as int + 1)));
                }
                i = i + 1;
            }
            proof {
                assert(fields@.take(fields@.len() as int) =~= fields@);
            }
        },
        AstNode::Array { elements, .. } => {
            let mut i: usize = 0;
            while i < elements.len()
                invariant
                    i <= elements@.len(),
                    (node matches AstNode::Array { elements: held, .. } && held == elements),
                    forall|a: int, b: int| 0 <= a < b < acc@.len()
                        ==> (#[trigger] acc@[a])@ != (#[trigger] acc@[b])@,
                    name_set(acc@) == name_set(old(acc)@)
                        + crate::ast::deps_of_list(elements@.take(i as int)),
                decreases elements@.len() - i,
            {
                proof {
                    assert(decreases_to!(*node => elements@[i as int])) by {
                        assert(decreases_to!(*node => node->elements));
                        assert(node->elements == *elements);
                        assert(decreases_to!(*elements => elements@));
                        assert(decreases_to!(elements@ => elements@[i as int]));
                    }
                }
                collect_deps_into(&elements[i], acc);
                proof {
                    assert(elements@.take(i as int + 1).drop_last() =~= elements@.take(i as int));
                    assert(elements@.take(i as int + 1).last() == elements@[i as int]);
                    assert(name_set(acc@) =~= name_set(old(acc)@)
                        + crate::ast::deps_of_list(elements@.take(i as int + 1)));
                }
                i = i + 1;
            }
            proof {
                assert(elements@.take(elements@.len() as int) =~= elements@);
            }
        },
        AstNode::Promise { expression, .. } => {
            collect_deps_into(expression, acc);
            proof {
                assert(name_set(acc@) =~= name_set(old(acc)@) + crate::ast::deps_of(*node));
            }
        },
        AstNode::HttpCall { url, body, headers, .. } => {
            collect_deps_into(url, acc);
            match body {
                Some(b) => {
                    proof {
                        assert(decreases_to!(*node => **b)) by {
                            assert(decreases_to!(*node => node->body));
                            assert(node->body == *body);
                        }
                    }
                    let inner: &AstNode = &**b;
                    collect_deps_into(inner, acc);
                },
                None => {},
            }
            match headers {
                Some(hs) => {
                    let ghost mid = acc@;
                    let mut i: usize = 0;
                    while i < hs.len()
                        invariant
                            i <= hs@.len(),
                            (node matches AstNode::HttpCall { headers: held, .. }
                                && held == &Some(*hs)),
                            forall|a: int, b: int| 0 <= a < b < acc@.len()
                                ==> (#[trigger] acc@[a])@ != (#[trigger] acc@[b])@,
                            name_set(acc@) == name_set(mid)
                                + crate::ast::deps_of_pairs(hs@.take(i as int)),
                        decreases hs@.len() - i,
                    {
                        proof {
                            assert(decreases_to!(*node => hs@[i as int].1)) by {
                                assert(decreases_to!(*node => node->headers));
                                assert(node->headers == Some(*hs));
                                assert(decreases_to!(node->headers => node->headers->0));
                                assert(node->headers->0 == *hs);
                                assert(decreases_to!(*hs => hs@));
                                assert(decreases_to!(hs@ => hs@[i as int]));
                                assert(decreases_to!(hs@[i as int] => hs@[i as int].1));
                            }
                        }
                        collect_deps_into(&hs[i].1, acc);
                        proof {
                            assert(hs@.take(i as int + 1).drop_last() =~= hs@.take(i as int));
                            assert(hs@.take(i as int + 1).last() == hs@[i as int]);
                            assert(name_set(acc@) =~= name_set(mid)
                                + crate::ast::deps_of_pairs(hs@.take(i as int + 1)));
                        }
                        i = i + 1;
                    }
                    proof {
                        assert(hs@.take(hs@.len() as int) =~= hs@);
                    }
                },
                None => {},
            }
            proof {
                assert(name_set(acc@) =~= name_set(old(acc)@) + crate::ast::deps_of(*node));
            }
        },
        AstNode::FunctionCall { arguments, .. } => {
            let mut i: usize = 0;
            while i < arguments.len()
                invariant
                    i <= arguments@.len(),
                    (node matches AstNode::FunctionCall { arguments: held, .. }
                        && held == arguments),
                    forall|a: int, b: int| 0 <= a < b < acc@.len()
                        ==> (#[trigger] acc@[a])@ != (#[trigger] acc@[b])@,
                    name_set(acc@) == name_set(old(acc)@)
                        + crate::ast::deps_of_list(arguments@.take(i as int)),
                decreases arguments@.len() - i,
            {
                proof {
                    assert(decreases_to!(*node => arguments@[i as int])) by {
                        assert(decreases_to!(*node => node->arguments));
                        assert(node->arguments == *arguments);
                        assert(decreases_to!(*arguments => arguments@));
                        assert(decreases_to!(arguments@ => arguments@[i as int]));
                    }
                }
                collect_deps_into(&arguments[i], acc);
                proof {
                    assert(arguments@.take(i as int + 1).drop_last()
                        =~= arguments@.take(i as int));
                    assert(arguments@.take(i as int + 1).last() == arguments@[i as int]);
                    assert(name_set(acc@) =~= name_set(old(acc)@)
                        + crate::ast::deps_of_list(arguments@.take(i as int + 1)));
                }
                i = i + 1;
            }
            proof {
                assert(arguments@.take(arguments@.len() as int) =~= arguments@);
            }
        },
        _ => {
            proof {
                assert(name_set(acc@) =~= name_set(old(acc)@) + crate::ast::deps_of(*node));
            }
        },
    }
}

/// Add a name to the accumulator unless an equal name is already held.
fn push_name(acc: &mut Vec<String>, name: &String)
    requires
        forall|i: int, j: int| 0 <= i < j < old(acc)@.len()
            ==> (#[trigger] old(acc)@[i])@ != (#[trigger] old(acc)@[j])@,
    ensures
        forall|i: int, j: int| 0 <= i < j < final(acc)@.len()
            ==> (#[trigger] final(acc)@[i])@ != (#[trigger] final(acc)@[j])@,
        name_set(final(acc)@) == name_set(old(acc)@).insert(name@),
{
    let mut i: usize = 0;
    while i < acc.len()
        invariant
            i <= acc@.len(),
            acc == old(acc),
            forall|a: int, b: int| 0 <= a < b < acc@.len()
                ==> (#[trigger] acc@[a])@ != (#[trigger] acc@[b])@,
            forall|j: int| 0 <= j < i ==> (#[trigger] acc@[j])@ != name@,
        decreases acc@.len() - i,
    {
        if crate::interpreter::str_eq(acc[i].as_str(), name.as_str()) {
            proof {
                assert(name_set(acc@).contains(name@));
                assert(name_set(acc@) =~= name_set(old(acc)@).insert(name@));
            }
            return;
        }
        i = i + 1;
    }
    acc.push(name.clone());
    proof {
        assert(acc@.drop_last() == old(acc)@);
        assert(acc@.last()@ == name@);
        assert forall|a: int, b: int| 0 <= a < b < acc@.len()
            implies (#[trigger] acc@[a])@ != (#[trigger] acc@[b])@ by {
            if b < acc@.len() - 1 {
                assert(old(acc)@[a]@ != old(acc)@[b]@);
            }
        }
        assert(name_set(acc@) =~= name_set(old(acc)@).insert(name@)) by {
            assert forall|n: Seq<char>| name_set(acc@).contains(n)
                implies name_set(old(acc)@).insert(name@).contains(n) by {
                let w = choose|w: int| 0 <= w < acc@.len() && (#[trigger] acc@[w])@ == n;
                if w < acc@.len() - 1 {
                    assert(old(acc)@[w]@ == n);
                }
            }
            assert forall|n: Seq<char>| name_set(old(acc)@).insert(name@).contains(n)
                implies name_set(acc@).contains(n) by {
                if n == name@ {
                    assert(acc@[acc@.len() - 1]@ == n);
                } else {
                    let w = choose|w: int| 0 <= w < old(acc)@.len()
                        && (#[trigger] old(acc)@[w])@ == n;
                    assert(acc@[w]@ == n);
                }
            }
        }
    }
}

/// A copy of keyed expressions, for the recorded test inputs.
fn clone_binding_pairs(pairs: &Vec<(String, AstNode)>) -> (r: Vec<(String, AstNode)>)
{
    let mut out: Vec<(String, AstNode)> = Vec::new();
    let mut i: usize = 0;
    while i < pairs.len()
        invariant
            i <= pairs@.len(),
        decreases pairs@.len() - i,
    {
        out.push((pairs[i].0.clone(), pairs[i].1.clone()));
        i = i + 1;
    }
    out
}

/// Looking names up in a vector of names.
pub trait NameList {
    /// Whether the list holds the name.
    fn contains_name(&self, name: &str) -> bool;
}

impl NameList for Vec<String> {
    /// Whether the list holds the name.
    fn contains_name(&self, name: &str) -> (r: bool)
        ensures
            r == exists|j: int| 0 <= j < self@.len() && (#[trigger] self@[j])@ == name@,
    {
        let mut j: usize = 0;
        while j < self.len()
            invariant
                j <= self@.len(),
                forall|q: int| 0 <= q < j ==> (#[trigger] self@[q])@ != name@,
            decreases self@.len() - j,
        {
            if crate::interpreter::str_eq(self[j].as_str(), name) {
                return true;
            }
            j = j + 1;
        }
        false
    }
}

impl Symbol {
    /// A copy of the bookkeeping fields, sharing nothing with the original.
    fn clone_shallow(&self) -> (r: Self)
        ensures
            r.name@ == self.name@,
            r.is_resolved == self.is_resolved,
            r.dependencies@.len() == self.dependencies@.len(),
            forall|i: int| 0 <= i < r.dependencies@.len()
                ==> (#[trigger] r.dependencies@[i])@ == self.dependencies@[i]@,
            r.dependents@.len() == self.dependents@.len(),
            forall|i: int| 0 <= i < r.dependents@.len()
                ==> (#[trigger] r.dependents@[i])@ == self.dependents@[i]@,
            r.definition_line == self.definition_line,
    {
        Symbol {
            name: self.name.clone(),
            symbol_type: self.symbol_type.clone(),
            is_resolved: self.is_resolved,
            dependencies: clone_names(&self.dependencies),
            dependents: clone_names(&self.dependents),
            definition_line: self.definition_line,
            ast_node: match &self.ast_node {
                Some(n) => Some(n.clone()),
                None => None,
            },
        }
    }
}

/// A copy of a name list, name views preserved.
fn clone_names(names: &Vec<String>) -> (r: Vec<String>)
    ensures
        r@.len() == names@.len(),
        forall|i: int| 0 <= i < r@.len() ==> (#[trigger] r@[i])@ == names@[i]@,
{
    let mut out: Vec<String> = Vec::new();
    let mut i: usize = 0;
    while i < names.len()
        invariant
            i <= names@.len(),
            out@.len() == i,
            forall|q: int| 0 <= q < i ==> (#[trigger] out@[q])@ == names@[q]@,
        decreases names@.len() - i,
    {
        out.push(names[i].clone());
        i = i + 1;
    }
    out
}


/// One round of emission: every symbol whose recorded dependencies are all
/// already emitted joins the emitted names.
pub open spec fn emit_step(symbols: Seq<Symbol>, done: Set<Seq<char>>) -> Set<Seq<char>> {
    done + Set::new(|nm: Seq<char>| exists|k: int| 0 <= k < symbols.len()
        && (#[trigger] symbols[k]).name@ == nm
        && (forall|d: int| 0 <= d < symbols[k].dependencies@.len()
            ==> done.contains((#[trigger] symbols[k].dependencies@[d])@)))
}

/// The names emitted after the given number of rounds, starting from none.
pub open spec fn emitted_after(symbols: Seq<Symbol>, rounds: nat) -> Set<Seq<char>>
    decreases rounds,
{
    if rounds == 0 {
        Set::empty()
    } else {
        emit_step(symbols, emitted_after(symbols, (rounds - 1) as nat))
    }
}

/// The names an emission by rounds can ever reach: as many rounds as the
/// table has symbols emit everything emittable.
pub open spec fn emittable(symbols: Seq<Symbol>) -> Set<Seq<char>> {
    emitted_after(symbols, symbols.len() as nat)
}

/// Emission rounds only grow the emitted set.
pub proof fn lemma_emitted_monotone(symbols: Seq<Symbol>, m: nat, w: nat)
    requires
        m <= w,
    ensures
        emitted_after(symbols, m).subset_of(emitted_after(symbols, w)),
    decreases w,
{
    if m < w {
        lemma_emitted_monotone(symbols, m, (w - 1) as nat);
        assert forall|nm: Seq<char>| emitted_after(symbols, (w - 1) as nat).contains(nm)
            implies emitted_after(symbols, w).contains(nm) by {}
    }
}

/// A run of names whose pointwise members all stand in the order is wholly
/// in the order.
pub proof fn lemma_all_in_order_of_forall(deps: Seq<String>, order: Seq<String>)
    requires
        forall|d: int| 0 <= d < deps.len()
            ==> contains_name_of(order, (#[trigger] deps[d])@),
    ensures
        all_in_order(deps, order),
    decreases deps,
{
    if deps.len() > 0 {
        assert forall|d: int| 0 <= d < deps.drop_last().len()
            implies contains_name_of(order, (#[trigger] deps.drop_last()[d])@) by {
            assert(deps.drop_last()[d] == deps[d]);
        }
        lemma_all_in_order_of_forall(deps.drop_last(), order);
        assert(contains_name_of(order, deps.last()@));
    }
}

/// Whatever a saturated set of names holds, emission rounds stay inside it:
/// a set that already holds every symbol whose dependencies it holds is
/// closed under emission.
pub proof fn lemma_emitted_in_saturated(symbols: Seq<Symbol>, done: Set<Seq<char>>, m: nat)
    requires
        forall|k: int| 0 <= k < symbols.len()
            && (forall|d: int| 0 <= d < symbols[k].dependencies@.len()
                ==> done.contains((#[trigger] symbols[k].dependencies@[d])@))
            ==> done.contains((#[trigger] symbols[k]).name@),
    ensures
        emitted_after(symbols, m).subset_of(done),
    decreases m,
{
    if m > 0 {
        lemma_emitted_in_saturated(symbols, done, (m - 1) as nat);
        assert forall|nm: Seq<char>| emitted_after(symbols, m).contains(nm)
            implies done.contains(nm) by {
            if !emitted_after(symbols, (m - 1) as nat).contains(nm) {
                let k = choose|k: int| 0 <= k < symbols.len()
                    && (#[trigger] symbols[k]).name@ == nm
                    && (forall|d: int| 0 <= d < symbols[k].dependencies@.len()
                        ==> emitted_after(symbols, (m - 1) as nat).contains(
                            (#[trigger] symbols[k].dependencies@[d])@));
                assert forall|d: int| 0 <= d < symbols[k].dependencies@.len()
                    implies done.contains((#[trigger] symbols[k].dependencies@[d])@) by {
                    assert(emitted_after(symbols, (m - 1) as nat).contains(
                        symbols[k].dependencies@[d]@));
                }
                assert(done.contains(symbols[k].name@));
            }
        }
    }
}

/// Whether some symbol of the table carries the name.
pub open spec fn table_has(symbols: Seq<Symbol>, nm: Seq<char>) -> bool {
    exists|k: int| 0 <= k < symbols.len() && (#[trigger] symbols[k]).name@ == nm
}

/// Every name of an order that respects the dependencies is emitted within
/// as many rounds as the order is long.
pub proof fn lemma_order_emittable(order: Seq<String>, symbols: Seq<Symbol>)
    requires
        order_respects_dependencies(order, symbols),
        forall|i: int| 0 <= i < order.len()
            ==> table_has(symbols, (#[trigger] order[i])@),
    ensures
        forall|i: int| 0 <= i < order.len()
            ==> emitted_after(symbols, order.len() as nat).contains((#[trigger] order[i])@),
    decreases order,
{
    if order.len() > 0 {
        assert forall|i: int| 0 <= i < order.drop_last().len()
            implies table_has(symbols, (#[trigger] order.drop_last()[i])@) by {
            assert(order.drop_last()[i] == order[i]);
            assert(table_has(symbols, order[i]@));
        }
        assert(order_respects_dependencies(order.drop_last(), symbols));
        lemma_order_emittable(order.drop_last(), symbols);
        lemma_emitted_monotone(symbols, (order.len() - 1) as nat, order.len() as nat);
        assert forall|i: int| 0 <= i < order.len()
            implies emitted_after(symbols, order.len() as nat).contains(
                (#[trigger] order[i])@) by {
            if i < order.len() - 1 {
                assert(order.drop_last()[i] == order[i]);
                assert(emitted_after(symbols, (order.len() - 1) as nat).contains(order[i]@));
            } else {
                assert(table_has(symbols, order[i]@));
                let k = choose|k: int| 0 <= k < symbols.len()
                    && (#[trigger] symbols[k]).name@ == order[i]@;
                assert(all_in_order(symbols[k].dependencies@, order.drop_last()));
                assert forall|d: int| 0 <= d < symbols[k].dependencies@.len()
                    implies emitted_after(symbols, (order.len() - 1) as nat).contains(
                        (#[trigger] symbols[k].dependencies@[d])@) by {
                    lemma_all_in_order_index(symbols[k].dependencies@,
                        order.drop_last(), d);
                    let w = choose|w: int| 0 <= w < order.drop_last().len()
                        && (#[trigger] order.drop_last()[w])@
                            == symbols[k].dependencies@[d]@;
                    assert(order.drop_last()[w] == order[w]);
                    assert(emitted_after(symbols, (order.len() - 1) as nat).contains(
                        order[w]@));
                }
                assert(emit_step(symbols,
                    emitted_after(symbols, (order.len() - 1) as nat)).contains(order[i]@));
            }
        }
    }
}

} // verus!
