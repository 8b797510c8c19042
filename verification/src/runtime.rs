//! The runtime entry point around the VM: configuration, module decoding
//! and execution, and heap management delegated to the memory manager.
//! Reading bytecode files from disk belongs to callers; the runtime works
//! on the decoded bytes.

use vstd::prelude::*;
use vstd::string::StringExecFns;
use crate::bytecode::{BytecodeModule, ParseError, parse_module};
use crate::execution_context::{ExecutionContext, VMError};
use crate::interpreter::{VM, ProgV, RunStateV, init_context_v, mgr_of, prog_of, run_n};
use crate::execution_context::ContextV;
use crate::value::value_view;
use crate::memory::{MemoryManager, MemoryError};
use crate::value::Value;

verus! {

/// Configuration options for the runtime.
#[derive(Debug, Clone)]
pub struct RuntimeConfig {
    pub debug_mode: bool,
    pub stack_trace: bool,
    pub gc_threshold: usize,
    pub gc_enabled: bool,
}

impl RuntimeConfig {
    /// The default configuration: no debugging output, a ten-thousand
    /// object collection ceiling, collection enabled.
    pub fn new() -> (r: Self)
        ensures
            !r.debug_mode,
            !r.stack_trace,
            r.gc_threshold == 10000,
            r.gc_enabled,
    {
        RuntimeConfig {
            debug_mode: false,
            stack_trace: false,
            gc_threshold: 10000,
            gc_enabled: true,
        }
    }

    /// Enable or disable debug mode.
    pub fn with_debug_mode(self, debug_mode: bool) -> (r: Self)
        ensures
            r == (RuntimeConfig { debug_mode, ..self }),
    {
        RuntimeConfig { debug_mode, ..self }
    }

    /// Enable or disable stack tracing.
    pub fn with_stack_trace(self, stack_trace: bool) -> (r: Self)
        ensures
            r == (RuntimeConfig { stack_trace, ..self }),
    {
        RuntimeConfig { stack_trace, ..self }
    }

    /// Set the garbage collection threshold.
    pub fn with_gc_threshold(self, gc_threshold: usize) -> (r: Self)
        ensures
            r == (RuntimeConfig { gc_threshold, ..self }),
    {
        RuntimeConfig { gc_threshold, ..self }
    }

    /// Enable or disable garbage collection.
    pub fn with_gc_enabled(self, gc_enabled: bool) -> (r: Self)
        ensures
            r == (RuntimeConfig { gc_enabled, ..self }),
    {
        RuntimeConfig { gc_enabled, ..self }
    }
}

impl Default for RuntimeConfig {
    /// The same configuration `new` builds.
    fn default() -> (r: Self)
        ensures
            !r.debug_mode,
            !r.stack_trace,
            r.gc_threshold == 10000,
            r.gc_enabled,
    {
        RuntimeConfig::new()
    }
}

/// Errors that can occur in the runtime.
#[derive(Debug)]
pub enum RuntimeError {
    VMError(VMError),
    ParsingError(ParseError),
    MemoryError(MemoryError),
    ConfigError(String),
}

/// The program a well-formed run of module bytes decodes to.
pub open spec fn decoded_prog(b: Seq<u8>) -> ProgV {
    match crate::bytecode::parse_module_of(b) {
        Option::Some(t) => ProgV { name: t.0, constants: t.1, instructions: t.2 },
        Option::None => ProgV {
            name: Seq::<char>::empty(),
            constants: Seq::<crate::bytecode::ConstantV>::empty(),
            instructions: Seq::<crate::bytecode::InstructionV>::empty(),
        },
    }
}

/// The runtime: a VM over a shared memory manager, plus configuration.
pub struct Runtime {
    pub vm: VM,
    pub config: RuntimeConfig,
}

impl Runtime {
    /// A runtime with the default configuration.
    pub fn new() -> (r: Result<Self, RuntimeError>)
        ensures
            r matches Result::Ok(rt) && rt.vm.memory_manager.wf()
                && rt.vm.memory_manager.current_heap_id == 1,
    {
        Runtime::with_config(RuntimeConfig::new())
    }

    /// A runtime with the given configuration: a fresh memory manager with
    /// the default heap, and a VM over it.
    pub fn with_config(config: RuntimeConfig) -> (r: Result<Self, RuntimeError>)
        ensures
            r matches Result::Ok(rt) && rt.vm.memory_manager.wf()
                && rt.vm.memory_manager.current_heap_id == 1
                && rt.config == config,
    {
        let memory_manager: MemoryManager<Value> = MemoryManager::new();
        let mut vm = VM::new(memory_manager);
        vm.set_stack_trace(config.stack_trace);
        Ok(Runtime { vm, config })
    }

    /// Decode a bytecode module from file bytes and execute it, returning
    /// the final value. Decoding failures come back as parsing errors;
    /// execution failures as VM errors.
    pub fn execute_bytes(&mut self, bytes: &[u8]) -> (r: Result<Value, RuntimeError>)
        requires
            old(self).vm.memory_manager.wf(),
        ensures
            final(self).vm.memory_manager.wf(),
            final(self).config == old(self).config,
            (r matches Result::Err(e) && e matches RuntimeError::ParsingError(_))
                <==> crate::bytecode::parse_module_of(bytes@) is None,
            crate::bytecode::parse_module_of(bytes@) is None ==> *final(self) == *old(self),
            crate::bytecode::parse_module_of(bytes@) matches Option::Some(t)
                ==> (match r {
                    Result::Ok(v) => exists|n: nat| run_n(
                        (ProgV { name: t.0, constants: t.1, instructions: t.2 }),
                        RunStateV::Running(init_context_v(),
                            mgr_of(old(self).vm.memory_manager)), n)
                        == RunStateV::Halted(value_view(v)),
                    Result::Err(e) => e matches RuntimeError::VMError(ve)
                        && ((exists|n: nat| run_n(
                            (ProgV { name: t.0, constants: t.1, instructions: t.2 }),
                            RunStateV::Running(init_context_v(),
                                mgr_of(old(self).vm.memory_manager)), n)
                            == RunStateV::Failed(ve@))
                            || ve@ == crate::execution_context::VMErrorV::RuntimeError("step budget exhausted"@)),
                }),
            crate::bytecode::parse_module_of(bytes@) matches Option::Some(t)
                ==> exists|n: nat, s: ContextV| run_n(
                    (ProgV { name: t.0, constants: t.1, instructions: t.2 }),
                    RunStateV::Running(init_context_v(),
                        mgr_of(old(self).vm.memory_manager)), n)
                    == RunStateV::Running(s, mgr_of(final(self).vm.memory_manager)),
    {
        let module = match parse_module(bytes) {
            Ok(m) => m,
            Err(e) => { return Err(RuntimeError::ParsingError(e)); },
        };
        let ghost parsed = module;
        if self.config.debug_mode {
            let mut line = "Loaded module: ".to_owned();
            line.append(module.name.as_str());
            crate::interpreter::print_line(line.as_str());
        }
        let name = module.name.clone();
        self.vm.load_module(module);
        proof {
            let k = choose|k: int| 0 <= k < self.vm.modules@.len()
                && (#[trigger] self.vm.modules@[k]).0@ == parsed.name@
                && self.vm.modules@[k].1 == parsed
                && (forall|j: int| 0 <= j < k
                    ==> (#[trigger] self.vm.modules@[j]).0@ != parsed.name@);
            assert(self.vm.modules@[k].0@ == name@);
        }
        let vmres = self.vm.execute_module(name.as_str());
        proof {
            let nm = name@;
            let k = choose|k: int| 0 <= k < self.vm.modules@.len()
                && (#[trigger] self.vm.modules@[k]).0@ == parsed.name@
                && self.vm.modules@[k].1 == parsed
                && (forall|j: int| 0 <= j < k
                    ==> (#[trigger] self.vm.modules@[j]).0@ != parsed.name@);
            assert(exists|k2: int| 0 <= k2 < self.vm.modules@.len()
                && (#[trigger] self.vm.modules@[k2]).0@ == nm
                && (forall|j: int| 0 <= j < k2
                    ==> (#[trigger] self.vm.modules@[j]).0@ != nm)
                && (match vmres {
                    Result::Ok(v) => exists|n: nat| run_n(prog_of(self.vm.modules@[k2].1),
                        RunStateV::Running(init_context_v(),
                            mgr_of(old(self).vm.memory_manager)), n)
                        == RunStateV::Halted(value_view(v)),
                    Result::Err(e) => (exists|n: nat| run_n(prog_of(self.vm.modules@[k2].1),
                        RunStateV::Running(init_context_v(),
                            mgr_of(old(self).vm.memory_manager)), n)
                        == RunStateV::Failed(e@))
                        || e@ == crate::execution_context::VMErrorV::RuntimeError(
                            "step budget exhausted"@),
                })
                && (exists|n: nat, s: ContextV| run_n(prog_of(self.vm.modules@[k2].1),
                    RunStateV::Running(init_context_v(),
                        mgr_of(old(self).vm.memory_manager)), n)
                    == RunStateV::Running(s, mgr_of(self.vm.memory_manager))));
            let k2 = choose|k2: int| 0 <= k2 < self.vm.modules@.len()
                && (#[trigger] self.vm.modules@[k2]).0@ == nm
                && (forall|j: int| 0 <= j < k2
                    ==> (#[trigger] self.vm.modules@[j]).0@ != nm)
                && (match vmres {
                    Result::Ok(v) => exists|n: nat| run_n(prog_of(self.vm.modules@[k2].1),
                        RunStateV::Running(init_context_v(),
                            mgr_of(old(self).vm.memory_manager)), n)
                        == RunStateV::Halted(value_view(v)),
                    Result::Err(e) => (exists|n: nat| run_n(prog_of(self.vm.modules@[k2].1),
                        RunStateV::Running(init_context_v(),
                            mgr_of(old(self).vm.memory_manager)), n)
                        == RunStateV::Failed(e@))
                        || e@ == crate::execution_context::VMErrorV::RuntimeError(
                            "step budget exhausted"@),
                })
                && (exists|n: nat, s: ContextV| run_n(prog_of(self.vm.modules@[k2].1),
                    RunStateV::Running(init_context_v(),
                        mgr_of(old(self).vm.memory_manager)), n)
                    == RunStateV::Running(s, mgr_of(self.vm.memory_manager)));
            if k2 != k {
                if k2 < k {
                    assert(self.vm.modules@[k2].0@ != parsed.name@);
                } else {
                    assert(self.vm.modules@[k].0@ != nm);
                }
            }
            assert(k2 == k);
            assert(self.vm.modules@[k2].1 == parsed);
            assert(prog_of(parsed) == (ProgV {
                name: parsed.name@,
                constants: crate::bytecode::views_of_constants(parsed.constants@),
                instructions: crate::bytecode::views_of_instructions(parsed.instructions@),
            }));
        }
        proof {
            let start = RunStateV::Running(init_context_v(), mgr_of(old(self).vm.memory_manager));
            let pg = prog_of(parsed);
            assert(decoded_prog(bytes@) == pg);
            match &vmres {
                Result::Ok(v) => {
                    let n0 = choose|n: nat| run_n(pg, start, n)
                        == RunStateV::Halted(value_view(*v));
                    assert(run_n(decoded_prog(bytes@), start, n0)
                        == RunStateV::Halted(value_view(*v)));
                },
                Result::Err(e) => {
                    if exists|n: nat| run_n(pg, start, n) == RunStateV::Failed(e@) {
                        let n0 = choose|n: nat| run_n(pg, start, n) == RunStateV::Failed(e@);
                        assert(run_n(decoded_prog(bytes@), start, n0)
                            == RunStateV::Failed(e@));
                    }
                },
            }
            let (n1, s1) = choose|n: nat, s: ContextV| run_n(pg, start, n)
                == RunStateV::Running(s, mgr_of(self.vm.memory_manager));
            assert(run_n(decoded_prog(bytes@), start, n1)
                == RunStateV::Running(s1, mgr_of(self.vm.memory_manager)));
        }
        let result = match vmres {
            Ok(v) => Ok(v),
            Err(e) => Err(RuntimeError::VMError(e)),
        };
        result
    }

    /// Create a new heap and return its id; heap ids increase monotonically,
    /// and creation is refused only when the id space has wrapped all the
    /// way around.
    pub fn create_heap(&mut self) -> (r: Result<u32, RuntimeError>)
        requires
            old(self).vm.memory_manager.wf(),
        ensures
            final(self).vm.memory_manager.wf(),
            final(self).vm.memory_manager.current_heap_id
                == old(self).vm.memory_manager.current_heap_id,
            match r {
                Result::Ok(id) => id == old(self).vm.memory_manager.heap_manager.next_id
                    && !old(self).vm.memory_manager.spec_has_heap(id)
                    && final(self).vm.memory_manager.heaps@.len()
                        == old(self).vm.memory_manager.heaps@.len() + 1
                    && final(self).vm.memory_manager.heaps@.drop_last()
                        == old(self).vm.memory_manager.heaps@
                    && final(self).vm.memory_manager.heaps@.last().id == id
                    && final(self).vm.memory_manager.heaps@.last().objects@.len() == 0
                    && final(self).vm.memory_manager.spec_has_heap(id),
                Result::Err(_) => old(self).vm.memory_manager.spec_has_heap(
                    old(self).vm.memory_manager.heap_manager.next_id)
                    && final(self).vm.memory_manager.state_eq(old(self).vm.memory_manager),
            },
    {
        match self.vm.memory_manager.create_heap() {
            Ok(id) => Ok(id),
            Err(e) => Err(RuntimeError::MemoryError(e)),
        }
    }

    /// Switch to a different heap for allocations.
    pub fn switch_heap(&mut self, heap_id: u32) -> (r: Result<(), RuntimeError>)
        requires
            old(self).vm.memory_manager.wf(),
        ensures
            final(self).vm.memory_manager.wf(),
            match r {
                Result::Ok(()) => old(self).vm.memory_manager.spec_has_heap(heap_id)
                    && final(self).vm.memory_manager.current_heap_id == heap_id,
                Result::Err(_) => !old(self).vm.memory_manager.spec_has_heap(heap_id)
                    && final(self).vm.memory_manager.current_heap_id
                        == old(self).vm.memory_manager.current_heap_id,
            },
    {
        match self.vm.memory_manager.switch_heap(heap_id) {
            Ok(()) => Ok(()),
            Err(e) => Err(RuntimeError::MemoryError(e)),
        }
    }

    /// The current heap id.
    pub fn current_heap_id(&self) -> (r: u32)
        ensures
            r == self.vm.memory_manager.current_heap_id,
    {
        self.vm.memory_manager.current_heap_id()
    }

    /// Trigger garbage collection on a specific heap.
    pub fn collect_heap(&mut self, heap_id: u32) -> (r: Result<(), RuntimeError>)
        requires
            old(self).vm.memory_manager.wf(),
        ensures
            final(self).vm.memory_manager.wf(),
            match r {
                Result::Ok(()) => old(self).vm.memory_manager.spec_has_heap(heap_id),
                Result::Err(_) => !old(self).vm.memory_manager.spec_has_heap(heap_id),
            },
    {
        match self.vm.memory_manager.collect_heap(heap_id) {
            Ok(()) => Ok(()),
            Err(e) => Err(RuntimeError::MemoryError(e)),
        }
    }

    /// Trigger garbage collection on all heaps.
    pub fn collect_all(&mut self) -> (r: Result<(), RuntimeError>)
        requires
            old(self).vm.memory_manager.wf(),
        ensures
            final(self).vm.memory_manager.wf(),
            r is Ok,
    {
        match self.vm.memory_manager.collect_all() {
            Ok(()) => Ok(()),
            Err(_) => { proof { assert(false); } unreached() },
        }
    }
}

} // verus!
