//! The virtual machine: a fetch–decode–execute loop over one code object,
//! driving an operand stack, a flat name scope, and a block stack for loop
//! control. Every instruction handler is proved to implement [`step_spec`],
//! the one-step mathematical machine, exactly; running the machine is proved
//! to compute [`run_spec`], its iterated closure.
//!
//! The machine performs no I/O: a native call's output is accumulated as
//! lines in the machine state, for the host to write out.

use vstd::prelude::*;

use crate::builtins;
use crate::bytecode::{CodeObject, Instruction};
use crate::errors::{InternalErrorKind, TypeErrorKind, VmError};
use crate::pyobject::{
    binary_operation, binop_spec, call_spec, is_live_iterator, iter_advanced, iter_element,
    lemma_vals_of, lemma_vals_of_drop_last, lemma_vals_of_push, lemma_vals_of_subrange,
    lines_view, spec_tag_of, tag_of, val_of, vals_of, NativeFunction, PyObject, Val,
};

verus! {

/// One active loop: `Break` transfers to `end` popping the entry, `Continue`
/// transfers to `start` keeping it.
#[derive(Debug, Clone, Copy, PartialEq, Eq, Structural)]
pub struct Block {
    pub start: usize,
    pub end: usize,
}

/// The machine's name scope: a flat mapping from name to value, unique keys,
/// last write wins. Bindings are kept in write order and read from the most
/// recent backwards, which makes the newest binding shadow older ones.
#[derive(Debug)]
pub struct Scope {
    pub entries: Vec<(String, PyObject)>,
}

/// The mapping an entry row denotes: later entries override earlier ones.
pub open spec fn scope_view(s: Seq<(String, PyObject)>) -> Map<Seq<char>, Val>
    decreases s,
{
    if s.len() == 0 {
        Map::<Seq<char>, Val>::empty()
    } else {
        scope_view(s.drop_last()).insert(s.last().0@, s.last().1@)
    }
}

impl View for Scope {
    type V = Map<Seq<char>, Val>;

    open spec fn view(&self) -> Map<Seq<char>, Val> {
        scope_view(self.entries@)
    }
}

/// What a backwards scan of the entry row finds for `k`.
spec fn scope_scan(s: Seq<(String, PyObject)>, k: Seq<char>) -> Option<Val>
    decreases s,
{
    if s.len() == 0 {
        Option::None
    } else if s.last().0@ == k {
        Option::Some(s.last().1@)
    } else {
        scope_scan(s.drop_last(), k)
    }
}

/// The backwards scan finds exactly the mapping's binding for `k`.
proof fn lemma_scope_scan(s: Seq<(String, PyObject)>, k: Seq<char>)
    ensures
        scope_scan(s, k) == if scope_view(s).contains_key(k) {
            Option::Some(scope_view(s)[k])
        } else {
            Option::None::<Val>
        },
    decreases s,
{
    if s.len() > 0 {
        lemma_scope_scan(s.drop_last(), k);
    }
}

impl Scope {
    /// A scope with no bindings.
    pub fn new() -> (r: Scope)
        ensures
            r@ == Map::<Seq<char>, Val>::empty(),
    {
        Scope { entries: Vec::new() }
    }

    /// Binds `name` to `value`. Binding always succeeds and shadows any
    /// prior binding of the same name.
    pub fn insert(&mut self, name: String, value: PyObject)
        ensures
            final(self)@ == old(self)@.insert(name@, value@),
    {
        let ghost s: Seq<(String, PyObject)> = self.entries@;
        self.entries.push((name, value));
        proof {
            assert(self.entries@.drop_last() =~= s);
        }
    }

    /// The value bound to `name`, if any binding was ever made for it.
    pub fn lookup(&self, name: &String) -> (r: Option<&PyObject>)
        ensures
            match r {
                Option::Some(v) => self@.contains_key(name@) && v@ == self@[name@],
                Option::None => !self@.contains_key(name@),
            },
    {
        let ghost s: Seq<(String, PyObject)> = self.entries@;
        let mut i: usize = self.entries.len();
        proof {
            assert(s.take(s.len() as int) =~= s);
        }
        while i > 0
            invariant
                i <= s.len(),
                s == self.entries@,
                scope_scan(s, name@) == scope_scan(s.take(i as int), name@),
            decreases i,
        {
            i = i - 1;
            let entry = &self.entries[i];
            if entry.0 == *name {
                proof {
                    assert(s.take(i as int + 1).last() == s[i as int]);
                    lemma_scope_scan(s, name@);
                }
                return Option::Some(&entry.1);
            }
            proof {
                assert(s.take(i as int + 1).last() == s[i as int]);
                assert(s.take(i as int + 1).drop_last() =~= s.take(i as int));
            }
        }
        proof {
            assert(s.take(0) =~= Seq::<(String, PyObject)>::empty());
            lemma_scope_scan(s, name@);
        }
        Option::None
    }
}

/// The mathematical shape of a machine state.
#[verifier::ext_equal]
pub struct MachineView {
    pub stack: Seq<Val>,
    pub scope: Map<Seq<char>, Val>,
    pub blocks: Seq<Block>,
    pub pc: nat,
    pub output: Seq<Seq<char>>,
}

/// What one step does: continue to a next state, halt with a result, or fail.
/// A failing step leaves the machine exactly as it found it, so the state at
/// a failure can be inspected.
pub enum StepView {
    Going { next: MachineView },
    Done { result: Val, machine: MachineView },
    Failed { error: VmError, machine: MachineView },
}

/// The stack-underflow failure, the machine unchanged.
pub open spec fn underflow(m: MachineView) -> StepView {
    StepView::Failed {
        error: VmError::InternalError { kind: InternalErrorKind::StackUnderflow },
        machine: m,
    }
}

/// One step of the machine on `code`, defined for `m.pc < code.len()`.
///
/// Every arm states the instruction's exact stack arity and failure cases:
/// user-facing failures (an unbound name, an undefined operator pair, an
/// uncallable callee, a truth test on a non-integer) and internal ones (any
/// underflow, a jump past the end, loop control with no active block, a
/// mis-shaped iterator under `ForIter`). A jump target equal to `code.len()`
/// is valid and halts the machine at the next fetch.
pub open spec fn step_spec(code: Seq<Instruction>, m: MachineView) -> StepView {
    let len = m.stack.len() as int;
    match code[m.pc as int] {
        Instruction::LoadName { name } => if m.scope.contains_key(name@) {
            StepView::Going {
                next: MachineView { stack: m.stack.push(m.scope[name@]), pc: m.pc + 1, ..m },
            }
        } else {
            StepView::Failed { error: VmError::NameError { name }, machine: m }
        },
        Instruction::StoreName { name } => if m.stack.len() >= 1 {
            StepView::Going {
                next: MachineView {
                    stack: m.stack.drop_last(),
                    scope: m.scope.insert(name@, m.stack.last()),
                    pc: m.pc + 1,
                    ..m
                },
            }
        } else {
            underflow(m)
        },
        Instruction::LoadConst { value } => StepView::Going {
            next: MachineView { stack: m.stack.push(Val::IntV { n: value }), pc: m.pc + 1, ..m },
        },
        Instruction::LoadStringConstant { value } => StepView::Going {
            next: MachineView { stack: m.stack.push(Val::StrV { s: value@ }), pc: m.pc + 1, ..m },
        },
        Instruction::LoadNone => StepView::Going {
            next: MachineView { stack: m.stack.push(Val::NoneV), pc: m.pc + 1, ..m },
        },
        Instruction::BinaryOperation { op } => if m.stack.len() >= 2 {
            match binop_spec(op, m.stack[len - 2], m.stack[len - 1]) {
                Ok(v) => StepView::Going {
                    next: MachineView { stack: m.stack.take(len - 2).push(v), pc: m.pc + 1, ..m },
                },
                Err(e) => StepView::Failed { error: e, machine: m },
            }
        } else {
            underflow(m)
        },
        Instruction::Pop => if m.stack.len() >= 1 {
            StepView::Going {
                next: MachineView { stack: m.stack.drop_last(), pc: m.pc + 1, ..m },
            }
        } else {
            underflow(m)
        },
        Instruction::GetIter => if m.stack.len() >= 1 {
            match m.stack.last() {
                Val::ListV { .. } => StepView::Going {
                    next: MachineView {
                        stack: m.stack.drop_last().push(
                            Val::IterV { position: 0, source: Box::new(m.stack.last()) },
                        ),
                        pc: m.pc + 1,
                        ..m
                    },
                },
                Val::TupleV { .. } => StepView::Going {
                    next: MachineView {
                        stack: m.stack.drop_last().push(
                            Val::IterV { position: 0, source: Box::new(m.stack.last()) },
                        ),
                        pc: m.pc + 1,
                        ..m
                    },
                },
                _ => StepView::Failed {
                    error: VmError::TypeError {
                        kind: TypeErrorKind::NotIterable { tag: spec_tag_of(m.stack.last()) },
                    },
                    machine: m,
                },
            }
        } else {
            underflow(m)
        },
        Instruction::Pass => StepView::Going {
            next: MachineView { pc: m.pc + 1, ..m },
        },
        Instruction::Continue => if m.blocks.len() >= 1 {
            if m.blocks.last().start <= code.len() {
                StepView::Going {
                    next: MachineView { pc: m.blocks.last().start as nat, ..m },
                }
            } else {
                StepView::Failed {
                    error: VmError::InternalError {
                        kind: InternalErrorKind::InvalidJumpTarget { target: m.blocks.last().start },
                    },
                    machine: m,
                }
            }
        } else {
            StepView::Failed {
                error: VmError::InternalError { kind: InternalErrorKind::BlockUnderflow },
                machine: m,
            }
        },
        Instruction::Break => if m.blocks.len() >= 1 {
            if m.blocks.last().end <= code.len() {
                StepView::Going {
                    next: MachineView {
                        blocks: m.blocks.drop_last(),
                        pc: m.blocks.last().end as nat,
                        ..m
                    },
                }
            } else {
                StepView::Failed {
                    error: VmError::InternalError {
                        kind: InternalErrorKind::InvalidJumpTarget { target: m.blocks.last().end },
                    },
                    machine: m,
                }
            }
        } else {
            StepView::Failed {
                error: VmError::InternalError { kind: InternalErrorKind::BlockUnderflow },
                machine: m,
            }
        },
        Instruction::CallFunction { count } => if count < m.stack.len() {
            match call_spec(m.stack[len - count - 1], m.stack.subrange(len - count, len)) {
                Ok(effect) => StepView::Going {
                    next: MachineView {
                        stack: m.stack.take(len - count - 1).push(effect.value),
                        output: m.output + effect.lines,
                        pc: m.pc + 1,
                        ..m
                    },
                },
                Err(e) => StepView::Failed { error: e, machine: m },
            }
        } else {
            underflow(m)
        },
        Instruction::ForIter => if m.stack.len() >= 1 {
            if is_live_iterator(m.stack.last()) {
                match iter_element(m.stack.last()) {
                    Option::Some(v) => StepView::Going {
                        next: MachineView {
                            stack: m.stack.update(len - 1, iter_advanced(m.stack.last())).push(v),
                            pc: m.pc + 1,
                            ..m
                        },
                    },
                    Option::None => if m.blocks.len() >= 1 {
                        if m.blocks.last().end <= code.len() {
                            StepView::Going {
                                next: MachineView {
                                    blocks: m.blocks.drop_last(),
                                    pc: m.blocks.last().end as nat,
                                    ..m
                                },
                            }
                        } else {
                            StepView::Failed {
                                error: VmError::InternalError {
                                    kind: InternalErrorKind::InvalidJumpTarget {
                                        target: m.blocks.last().end,
                                    },
                                },
                                machine: m,
                            }
                        }
                    } else {
                        StepView::Failed {
                            error: VmError::InternalError {
                                kind: InternalErrorKind::BlockUnderflow,
                            },
                            machine: m,
                        }
                    },
                }
            } else {
                StepView::Failed {
                    error: VmError::InternalError { kind: InternalErrorKind::IteratorMismatch },
                    machine: m,
                }
            }
        } else {
            underflow(m)
        },
        Instruction::ReturnValue => if m.stack.len() >= 1 {
            StepView::Done {
                result: m.stack.last(),
                machine: MachineView { stack: m.stack.drop_last(), ..m },
            }
        } else {
            underflow(m)
        },
        Instruction::PushBlock { start, end } => StepView::Going {
            next: MachineView {
                blocks: m.blocks.push(Block { start, end }),
                pc: m.pc + 1,
                ..m
            },
        },
        Instruction::PopBlock => if m.blocks.len() >= 1 {
            StepView::Going {
                next: MachineView { blocks: m.blocks.drop_last(), pc: m.pc + 1, ..m },
            }
        } else {
            StepView::Failed {
                error: VmError::InternalError { kind: InternalErrorKind::BlockUnderflow },
                machine: m,
            }
        },
        Instruction::JumpIfFalse { target } => if m.stack.len() >= 1 {
            match m.stack.last() {
                Val::IntV { n } => if target <= code.len() {
                    if n == 0 {
                        StepView::Going {
                            next: MachineView { stack: m.stack.drop_last(), pc: target as nat, ..m },
                        }
                    } else {
                        StepView::Going {
                            next: MachineView { stack: m.stack.drop_last(), pc: m.pc + 1, ..m },
                        }
                    }
                } else {
                    StepView::Failed {
                        error: VmError::InternalError {
                            kind: InternalErrorKind::InvalidJumpTarget { target },
                        },
                        machine: m,
                    }
                },
                _ => StepView::Failed {
                    error: VmError::TypeError {
                        kind: TypeErrorKind::NoTruthValue { tag: spec_tag_of(m.stack.last()) },
                    },
                    machine: m,
                },
            }
        } else {
            underflow(m)
        },
        Instruction::BuildTuple { size } => if size <= m.stack.len() {
            StepView::Going {
                next: MachineView {
                    stack: m.stack.take(len - size).push(
                        Val::TupleV { elems: m.stack.subrange(len - size, len) },
                    ),
                    pc: m.pc + 1,
                    ..m
                },
            }
        } else {
            underflow(m)
        },
        Instruction::BuildList { size } => if size <= m.stack.len() {
            StepView::Going {
                next: MachineView {
                    stack: m.stack.take(len - size).push(
                        Val::ListV { elems: m.stack.subrange(len - size, len) },
                    ),
                    pc: m.pc + 1,
                    ..m
                },
            }
        } else {
            underflow(m)
        },
        Instruction::BuildMap { size } => if size % 2 != 0 {
            StepView::Failed {
                error: VmError::InternalError { kind: InternalErrorKind::UnpairedMapEntries },
                machine: m,
            }
        } else if size <= m.stack.len() {
            StepView::Going {
                next: MachineView {
                    stack: m.stack.take(len - size).push(
                        Val::DictV {
                            keys: Seq::new((size / 2) as nat, |i: int| m.stack[len - size + 2 * i]),
                            vals: Seq::new(
                                (size / 2) as nat,
                                |i: int| m.stack[len - size + 2 * i + 1],
                            ),
                        },
                    ),
                    pc: m.pc + 1,
                    ..m
                },
            }
        } else {
            underflow(m)
        },
    }
}

/// What running the machine yields within `fuel` steps: the final result and
/// machine, the failure and the machine at the failure, or the state reached
/// when the budget ran out. The machine halts normally when the program
/// counter passes the end of the code, yielding the no-value sentinel, or
/// when `ReturnValue` halts it with an explicit result.
pub open spec fn run_spec(code: Seq<Instruction>, m: MachineView, fuel: nat) -> RunView
    decreases fuel,
{
    if m.pc >= code.len() {
        RunView::Finished { result: Val::NoneV, machine: m }
    } else if fuel == 0 {
        RunView::Stopped { machine: m }
    } else {
        match step_spec(code, m) {
            StepView::Going { next } => run_spec(code, next, (fuel - 1) as nat),
            StepView::Done { result, machine } => RunView::Finished { result, machine },
            StepView::Failed { error, machine } => RunView::Failed { error, machine },
        }
    }
}

/// How one whole run ends.
pub enum RunView {
    Finished { result: Val, machine: MachineView },
    Failed { error: VmError, machine: MachineView },
    Stopped { machine: MachineView },
}

/// A fresh machine's shape: empty stack, empty block stack, the scope seeded
/// with the built-in bindings, the program counter at zero, no output yet.
pub open spec fn init_machine_view() -> MachineView {
    MachineView {
        stack: Seq::<Val>::empty(),
        scope: Map::<Seq<char>, Val>::empty().insert(
            "print"@,
            Val::FuncV { f: NativeFunction::Print },
        ),
        blocks: Seq::<Block>::empty(),
        pc: 0,
        output: Seq::<Seq<char>>::empty(),
    }
}

/// What one executed instruction reported.
#[derive(Debug)]
pub enum StepResult {
    Going,
    Done { value: PyObject },
    Failed { error: VmError },
}

/// How one whole run ended.
#[derive(Debug)]
pub enum RunResult {
    Finished { value: PyObject },
    Failed { error: VmError },
    Stopped,
}

/// Pops `count` values and returns them in their push order (bottom first).
fn pop_elements(stack: &mut Vec<PyObject>, count: usize) -> (out: Vec<PyObject>)
    requires
        count <= old(stack)@.len(),
    ensures
        final(stack)@ == old(stack)@.take(old(stack)@.len() - count as int),
        out@ == old(stack)@.subrange(
            old(stack)@.len() - count as int,
            old(stack)@.len() as int,
        ),
{
    let ghost s0: Seq<PyObject> = stack@;
    let mut rev: Vec<PyObject> = Vec::new();
    let mut j: usize = 0;
    proof {
        assert(s0.take(s0.len() as int) =~= s0);
    }
    while j < count
        invariant
            j <= count,
            count <= s0.len(),
            stack@ == s0.take(s0.len() - j as int),
            rev@.len() == j,
            forall|k: int| 0 <= k < j ==> rev@[k] == s0[s0.len() - 1 - k],
        decreases count - j,
    {
        let ghost before: Seq<PyObject> = stack@;
        match stack.pop() {
            Option::Some(x) => {
                rev.push(x);
            },
            Option::None => {
                proof {
                    assert(false);
                }
            },
        }
        j = j + 1;
        proof {
            assert(before.subrange(0, before.len() - 1) =~= s0.take(s0.len() - j as int));
        }
    }
    let mut out: Vec<PyObject> = Vec::new();
    let mut t: usize = count;
    while t > 0
        invariant
            t <= count,
            count <= s0.len(),
            rev@.len() == t,
            forall|k: int| 0 <= k < t ==> rev@[k] == s0[s0.len() - 1 - k],
            out@.len() == count - t,
            forall|k: int| 0 <= k < count - t ==> out@[k] == s0[s0.len() - count as int + k],
        decreases t,
    {
        t = t - 1;
        match rev.pop() {
            Option::Some(x) => {
                out.push(x);
            },
            Option::None => {
                proof {
                    assert(false);
                }
            },
        }
    }
    proof {
        assert(out@ =~= s0.subrange(s0.len() - count as int, s0.len() as int));
    }
    out
}

/// Copies of the values from index `from` up, equal in shape, in order.
fn duplicate_tail(v: &Vec<PyObject>, from: usize) -> (out: Vec<PyObject>)
    requires
        from <= v@.len(),
    ensures
        vals_of(out@) == vals_of(v@).subrange(from as int, v@.len() as int),
{
    let mut out: Vec<PyObject> = Vec::new();
    let mut j: usize = from;
    while j < v.len()
        invariant
            from <= j <= v@.len(),
            out@.len() == j - from,
            forall|k: int| 0 <= k < j - from ==> #[trigger] out@[k]@ == v@[from + k]@,
        decreases v@.len() - j,
    {
        let copied = v[j].duplicate();
        out.push(copied);
        j = j + 1;
    }
    proof {
        lemma_vals_of(out@);
        lemma_vals_of(v@);
        assert forall|k: int| 0 <= k < out@.len() implies vals_of(out@)[k] == vals_of(
            v@,
        ).subrange(from as int, v@.len() as int)[k] by {
            assert(out@[k]@ == v@[from + k]@);
        }
        assert(vals_of(out@) =~= vals_of(v@).subrange(from as int, v@.len() as int));
    }
    out
}

/// One running machine instance: created fresh per evaluation, seeded with
/// the built-in bindings, and driven to completion or to a fatal condition.
/// All mutable state is owned exclusively by the one instance.
#[derive(Debug)]
pub struct VirtualMachine {
    pub stack: Vec<PyObject>,
    pub scope: Scope,
    pub blocks: Vec<Block>,
    pub program_counter: usize,
    pub output: Vec<String>,
}

impl View for VirtualMachine {
    type V = MachineView;

    open spec fn view(&self) -> MachineView {
        MachineView {
            stack: vals_of(self.stack@),
            scope: self.scope@,
            blocks: self.blocks@,
            pc: self.program_counter as nat,
            output: lines_view(self.output@),
        }
    }
}

impl VirtualMachine {
    /// A machine with nothing on any stack and nothing in scope.
    pub fn new() -> (r: VirtualMachine)
        ensures
            r@ == (MachineView {
                stack: Seq::<Val>::empty(),
                scope: Map::<Seq<char>, Val>::empty(),
                blocks: Seq::<Block>::empty(),
                pc: 0,
                output: Seq::<Seq<char>>::empty(),
            }),
    {
        let vm = VirtualMachine {
            stack: Vec::new(),
            scope: Scope::new(),
            blocks: Vec::new(),
            program_counter: 0,
            output: Vec::new(),
        };
        proof {
            assert(vals_of(vm.stack@) =~= Seq::<Val>::empty());
            assert(lines_view(vm.output@) =~= Seq::<Seq<char>>::empty());
            assert(vm@ =~= (MachineView {
                stack: Seq::<Val>::empty(),
                scope: Map::<Seq<char>, Val>::empty(),
                blocks: Seq::<Block>::empty(),
                pc: 0,
                output: Seq::<Seq<char>>::empty(),
            }));
        }
        vm
    }

    fn exec_load_name(&mut self, code: &CodeObject) -> (r: StepResult)
        requires
            old(self)@.pc < code@.len(),
            code@[old(self)@.pc as int] is LoadName,
        ensures
            match step_spec(code@, old(self)@) {
                StepView::Going { next } => r is Going && final(self)@ == next,
                StepView::Done { result, machine } => (r matches StepResult::Done { value }
                    && value@ == result && final(self)@ == machine),
                StepView::Failed { error, machine } => (r matches StepResult::Failed {
                    error: e,
                } && e == error && final(self)@ == machine),
            },
    {
        let ghost m0: MachineView = self@;
        let pc = self.program_counter;
        let codelen = code.instructions.len();
        proof {
            lemma_vals_of(self.stack@);
        }
        match &code.instructions[pc] {
            Instruction::LoadName { name } => {
                match self.scope.lookup(name) {
                    Option::Some(v) => {
                        let copied = v.duplicate();
                        let ghost s0: Seq<PyObject> = self.stack@;
                        self.stack.push(copied);
                        self.program_counter = pc + 1;
                        proof {
                            lemma_vals_of_push(s0, copied);
                            assert(self@ =~= (MachineView {
                                stack: m0.stack.push(m0.scope[code@[m0.pc as int]->LoadName_name@]),
                                pc: m0.pc + 1,
                                ..m0
                            }));
                        }
                        StepResult::Going
                    },
                    Option::None => StepResult::Failed {
                        error: VmError::NameError { name: name.clone() },
                    },
                }
            },
            _ => vstd::pervasive::unreached(),
        }
    }

    fn exec_store_name(&mut self, code: &CodeObject) -> (r: StepResult)
        requires
            old(self)@.pc < code@.len(),
            code@[old(self)@.pc as int] is StoreName,
        ensures
            match step_spec(code@, old(self)@) {
                StepView::Going { next } => r is Going && final(self)@ == next,
                StepView::Done { result, machine } => (r matches StepResult::Done { value }
                    && value@ == result && final(self)@ == machine),
                StepView::Failed { error, machine } => (r matches StepResult::Failed {
                    error: e,
                } && e == error && final(self)@ == machine),
            },
    {
        let ghost m0: MachineView = self@;
        let pc = self.program_counter;
        let codelen = code.instructions.len();
        proof {
            lemma_vals_of(self.stack@);
        }
        if self.stack.len() == 0 {
            return StepResult::Failed {
                error: VmError::InternalError { kind: InternalErrorKind::StackUnderflow },
            };
        }
        match &code.instructions[pc] {
            Instruction::StoreName { name } => {
                let ghost s0: Seq<PyObject> = self.stack@;
                match self.stack.pop() {
                    Option::Some(v) => {
                        proof {
                            lemma_vals_of(s0);
                            lemma_vals_of_drop_last(s0);
                            assert(s0.subrange(0, s0.len() - 1) =~= s0.drop_last());
                        }
                        self.scope.insert(name.clone(), v);
                        self.program_counter = pc + 1;
                        proof {
                            assert(self@ =~= (MachineView {
                                stack: m0.stack.drop_last(),
                                scope: m0.scope.insert(
                                    code@[m0.pc as int]->StoreName_name@,
                                    m0.stack.last(),
                                ),
                                pc: m0.pc + 1,
                                ..m0
                            }));
                        }
                        StepResult::Going
                    },
                    Option::None => vstd::pervasive::unreached(),
                }
            },
            _ => vstd::pervasive::unreached(),
        }
    }

    fn exec_binary_operation(&mut self, code: &CodeObject) -> (r: StepResult)
        requires
            old(self)@.pc < code@.len(),
            code@[old(self)@.pc as int] is BinaryOperation,
        ensures
            match step_spec(code@, old(self)@) {
                StepView::Going { next } => r is Going && final(self)@ == next,
                StepView::Done { result, machine } => (r matches StepResult::Done { value }
                    && value@ == result && final(self)@ == machine),
                StepView::Failed { error, machine } => (r matches StepResult::Failed {
                    error: e,
                } && e == error && final(self)@ == machine),
            },
    {
        let ghost m0: MachineView = self@;
        let pc = self.program_counter;
        let codelen = code.instructions.len();
        let n = self.stack.len();
        proof {
            lemma_vals_of(self.stack@);
        }
        if n < 2 {
            return StepResult::Failed {
                error: VmError::InternalError { kind: InternalErrorKind::StackUnderflow },
            };
        }
        match &code.instructions[pc] {
            Instruction::BinaryOperation { op } => {
                proof {
                    lemma_vals_of(self.stack@);
                }
                match binary_operation(op, &self.stack[n - 2], &self.stack[n - 1]) {
                    Ok(v) => {
                        let ghost s0: Seq<PyObject> = self.stack@;
                        self.stack.truncate(n - 2);
                        proof {
                            lemma_vals_of_subrange(s0, 0, s0.len() - 2);
                            assert(s0.subrange(0, s0.len() - 2) =~= s0.take(s0.len() - 2));
                            assert(vals_of(s0).subrange(0, s0.len() - 2) =~= vals_of(s0).take(
                                s0.len() - 2,
                            ));
                            lemma_vals_of_push(self.stack@, v);
                        }
                        self.stack.push(v);
                        self.program_counter = pc + 1;
                        proof {
                            assert(self@ =~= (MachineView {
                                stack: m0.stack.take(m0.stack.len() - 2).push(
                                    binop_spec(
                                        code@[m0.pc as int]->BinaryOperation_op,
                                        m0.stack[m0.stack.len() - 2],
                                        m0.stack[m0.stack.len() - 1],
                                    )->Ok_0,
                                ),
                                pc: m0.pc + 1,
                                ..m0
                            }));
                        }
                        StepResult::Going
                    },
                    Err(e) => StepResult::Failed { error: e },
                }
            },
            _ => vstd::pervasive::unreached(),
        }
    }

    fn exec_get_iter(&mut self, code: &CodeObject) -> (r: StepResult)
        requires
            old(self)@.pc < code@.len(),
            code@[old(self)@.pc as int] is GetIter,
        ensures
            match step_spec(code@, old(self)@) {
                StepView::Going { next } => r is Going && final(self)@ == next,
                StepView::Done { result, machine } => (r matches StepResult::Done { value }
                    && value@ == result && final(self)@ == machine),
                StepView::Failed { error, machine } => (r matches StepResult::Failed {
                    error: e,
                } && e == error && final(self)@ == machine),
            },
    {
        let ghost m0: MachineView = self@;
        let pc = self.program_counter;
        let codelen = code.instructions.len();
        let n = self.stack.len();
        proof {
            lemma_vals_of(self.stack@);
        }
        if n == 0 {
            return StepResult::Failed {
                error: VmError::InternalError { kind: InternalErrorKind::StackUnderflow },
            };
        }
        let iterable: bool = match &self.stack[n - 1] {
            PyObject::List { .. } => true,
            PyObject::Tuple { .. } => true,
            _ => false,
        };
        if !iterable {
            return StepResult::Failed {
                error: VmError::TypeError {
                    kind: TypeErrorKind::NotIterable { tag: tag_of(&self.stack[n - 1]) },
                },
            };
        }
        let ghost s0: Seq<PyObject> = self.stack@;
        match self.stack.pop() {
            Option::Some(it) => {
                proof {
                    lemma_vals_of_drop_last(s0);
                    assert(s0.subrange(0, s0.len() - 1) =~= s0.drop_last());
                }
                let boxed = Box::new(it);
                let ghost s1: Seq<PyObject> = self.stack@;
                self.stack.push(PyObject::Iterator { position: 0, iterated_obj: boxed });
                self.program_counter = pc + 1;
                proof {
                    lemma_vals_of_push(
                        s1,
                        PyObject::Iterator { position: 0, iterated_obj: Box::new(s0.last()) },
                    );
                    assert(self@ =~= (MachineView {
                        stack: m0.stack.drop_last().push(
                            Val::IterV { position: 0, source: Box::new(m0.stack.last()) },
                        ),
                        pc: m0.pc + 1,
                        ..m0
                    }));
                }
                StepResult::Going
            },
            Option::None => vstd::pervasive::unreached(),
        }
    }

    fn exec_continue(&mut self, code: &CodeObject) -> (r: StepResult)
        requires
            old(self)@.pc < code@.len(),
            code@[old(self)@.pc as int] is Continue,
        ensures
            match step_spec(code@, old(self)@) {
                StepView::Going { next } => r is Going && final(self)@ == next,
                StepView::Done { result, machine } => (r matches StepResult::Done { value }
                    && value@ == result && final(self)@ == machine),
                StepView::Failed { error, machine } => (r matches StepResult::Failed {
                    error: e,
                } && e == error && final(self)@ == machine),
            },
    {
        let ghost m0: MachineView = self@;
        let codelen = code.instructions.len();
        if self.blocks.len() == 0 {
            return StepResult::Failed {
                error: VmError::InternalError { kind: InternalErrorKind::BlockUnderflow },
            };
        }
        let b: Block = self.blocks[self.blocks.len() - 1];
        if b.start <= codelen {
            self.program_counter = b.start;
            proof {
                assert(self@ =~= (MachineView { pc: m0.blocks.last().start as nat, ..m0 }));
            }
            StepResult::Going
        } else {
            StepResult::Failed {
                error: VmError::InternalError {
                    kind: InternalErrorKind::InvalidJumpTarget { target: b.start },
                },
            }
        }
    }

    fn exec_break(&mut self, code: &CodeObject) -> (r: StepResult)
        requires
            old(self)@.pc < code@.len(),
            code@[old(self)@.pc as int] is Break,
        ensures
            match step_spec(code@, old(self)@) {
                StepView::Going { next } => r is Going && final(self)@ == next,
                StepView::Done { result, machine } => (r matches StepResult::Done { value }
                    && value@ == result && final(self)@ == machine),
                StepView::Failed { error, machine } => (r matches StepResult::Failed {
                    error: e,
                } && e == error && final(self)@ == machine),
            },
    {
        let ghost m0: MachineView = self@;
        let codelen = code.instructions.len();
        if self.blocks.len() == 0 {
            return StepResult::Failed {
                error: VmError::InternalError { kind: InternalErrorKind::BlockUnderflow },
            };
        }
        let b: Block = self.blocks[self.blocks.len() - 1];
        if b.end <= codelen {
            let ghost b0: Seq<Block> = self.blocks@;
            let _ = self.blocks.pop();
            self.program_counter = b.end;
            proof {
                assert(b0.subrange(0, b0.len() - 1) =~= b0.drop_last());
                assert(self@ =~= (MachineView {
                    blocks: m0.blocks.drop_last(),
                    pc: m0.blocks.last().end as nat,
                    ..m0
                }));
            }
            StepResult::Going
        } else {
            StepResult::Failed {
                error: VmError::InternalError {
                    kind: InternalErrorKind::InvalidJumpTarget { target: b.end },
                },
            }
        }
    }

    fn exec_jump_if_false(&mut self, code: &CodeObject) -> (r: StepResult)
        requires
            old(self)@.pc < code@.len(),
            code@[old(self)@.pc as int] is JumpIfFalse,
        ensures
            match step_spec(code@, old(self)@) {
                StepView::Going { next } => r is Going && final(self)@ == next,
                StepView::Done { result, machine } => (r matches StepResult::Done { value }
                    && value@ == result && final(self)@ == machine),
                StepView::Failed { error, machine } => (r matches StepResult::Failed {
                    error: e,
                } && e == error && final(self)@ == machine),
            },
    {
        let ghost m0: MachineView = self@;
        let pc = self.program_counter;
        let codelen = code.instructions.len();
        let n = self.stack.len();
        proof {
            lemma_vals_of(self.stack@);
        }
        if n == 0 {
            return StepResult::Failed {
                error: VmError::InternalError { kind: InternalErrorKind::StackUnderflow },
            };
        }
        match &code.instructions[pc] {
            Instruction::JumpIfFalse { target } => {
                match &self.stack[n - 1] {
                    PyObject::Integer { value } => {
                        let truth: i32 = *value;
                        if *target <= codelen {
                            let jump_to: usize = *target;
                            let ghost s0: Seq<PyObject> = self.stack@;
                            let _ = self.stack.pop();
                            proof {
                                lemma_vals_of_drop_last(s0);
                                assert(s0.subrange(0, s0.len() - 1) =~= s0.drop_last());
                            }
                            if truth == 0 {
                                self.program_counter = jump_to;
                                proof {
                                    assert(self@ =~= (MachineView {
                                        stack: m0.stack.drop_last(),
                                        pc: code@[m0.pc as int]->JumpIfFalse_target as nat,
                                        ..m0
                                    }));
                                }
                            } else {
                                self.program_counter = pc + 1;
                                proof {
                                    assert(self@ =~= (MachineView {
                                        stack: m0.stack.drop_last(),
                                        pc: m0.pc + 1,
                                        ..m0
                                    }));
                                }
                            }
                            StepResult::Going
                        } else {
                            StepResult::Failed {
                                error: VmError::InternalError {
                                    kind: InternalErrorKind::InvalidJumpTarget { target: *target },
                                },
                            }
                        }
                    },
                    _ => StepResult::Failed {
                        error: VmError::TypeError {
                            kind: TypeErrorKind::NoTruthValue { tag: tag_of(&self.stack[n - 1]) },
                        },
                    },
                }
            },
            _ => vstd::pervasive::unreached(),
        }
    }

    fn exec_build_list(&mut self, code: &CodeObject) -> (r: StepResult)
        requires
            old(self)@.pc < code@.len(),
            code@[old(self)@.pc as int] is BuildList,
        ensures
            match step_spec(code@, old(self)@) {
                StepView::Going { next } => r is Going && final(self)@ == next,
                StepView::Done { result, machine } => (r matches StepResult::Done { value }
                    && value@ == result && final(self)@ == machine),
                StepView::Failed { error, machine } => (r matches StepResult::Failed {
                    error: e,
                } && e == error && final(self)@ == machine),
            },
    {
        let ghost m0: MachineView = self@;
        let pc = self.program_counter;
        let codelen = code.instructions.len();
        let n = self.stack.len();
        proof {
            lemma_vals_of(self.stack@);
        }
        match &code.instructions[pc] {
            Instruction::BuildList { size } => {
                if *size > n {
                    return StepResult::Failed {
                        error: VmError::InternalError { kind: InternalErrorKind::StackUnderflow },
                    };
                }
                let ghost s0: Seq<PyObject> = self.stack@;
                let elements = pop_elements(&mut self.stack, *size);
                let ghost s1: Seq<PyObject> = self.stack@;
                self.stack.push(PyObject::List { elements });
                self.program_counter = pc + 1;
                proof {
                    lemma_vals_of_subrange(s0, 0, s0.len() - code@[m0.pc as int]->BuildList_size);
                    lemma_vals_of_subrange(
                        s0,
                        s0.len() - code@[m0.pc as int]->BuildList_size,
                        s0.len() as int,
                    );
                    lemma_vals_of(self.stack@);
                    assert(s1 =~= s0.subrange(
                        0,
                        s0.len() - code@[m0.pc as int]->BuildList_size,
                    ));
                    assert(vals_of(self.stack@) =~= m0.stack.take(
                        m0.stack.len() - code@[m0.pc as int]->BuildList_size,
                    ).push(
                        Val::ListV {
                            elems: m0.stack.subrange(
                                m0.stack.len() - code@[m0.pc as int]->BuildList_size,
                                m0.stack.len() as int,
                            ),
                        },
                    ));
                    assert(self@ =~= (MachineView {
                        stack: m0.stack.take(
                            m0.stack.len() - code@[m0.pc as int]->BuildList_size,
                        ).push(
                            Val::ListV {
                                elems: m0.stack.subrange(
                                    m0.stack.len() - code@[m0.pc as int]->BuildList_size,
                                    m0.stack.len() as int,
                                ),
                            },
                        ),
                        pc: m0.pc + 1,
                        ..m0
                    }));
                }
                StepResult::Going
            },
            _ => vstd::pervasive::unreached(),
        }
    }

    fn exec_build_tuple(&mut self, code: &CodeObject) -> (r: StepResult)
        requires
            old(self)@.pc < code@.len(),
            code@[old(self)@.pc as int] is BuildTuple,
        ensures
            match step_spec(code@, old(self)@) {
                StepView::Going { next } => r is Going && final(self)@ == next,
                StepView::Done { result, machine } => (r matches StepResult::Done { value }
                    && value@ == result && final(self)@ == machine),
                StepView::Failed { error, machine } => (r matches StepResult::Failed {
                    error: e,
                } && e == error && final(self)@ == machine),
            },
    {
        let ghost m0: MachineView = self@;
        let pc = self.program_counter;
        let codelen = code.instructions.len();
        let n = self.stack.len();
        proof {
            lemma_vals_of(self.stack@);
        }
        match &code.instructions[pc] {
            Instruction::BuildTuple { size } => {
                if *size > n {
                    return StepResult::Failed {
                        error: VmError::InternalError { kind: InternalErrorKind::StackUnderflow },
                    };
                }
                let ghost s0: Seq<PyObject> = self.stack@;
                let elements = pop_elements(&mut self.stack, *size);
                let ghost s1: Seq<PyObject> = self.stack@;
                self.stack.push(PyObject::Tuple { elements });
                self.program_counter = pc + 1;
                proof {
                    lemma_vals_of_subrange(s0, 0, s0.len() - code@[m0.pc as int]->BuildTuple_size);
                    lemma_vals_of_subrange(
                        s0,
                        s0.len() - code@[m0.pc as int]->BuildTuple_size,
                        s0.len() as int,
                    );
                    lemma_vals_of(self.stack@);
                    assert(s1 =~= s0.subrange(
                        0,
                        s0.len() - code@[m0.pc as int]->BuildTuple_size,
                    ));
                    assert(vals_of(self.stack@) =~= m0.stack.take(
                        m0.stack.len() - code@[m0.pc as int]->BuildTuple_size,
                    ).push(
                        Val::TupleV {
                            elems: m0.stack.subrange(
                                m0.stack.len() - code@[m0.pc as int]->BuildTuple_size,
                                m0.stack.len() as int,
                            ),
                        },
                    ));
                    assert(self@ =~= (MachineView {
                        stack: m0.stack.take(
                            m0.stack.len() - code@[m0.pc as int]->BuildTuple_size,
                        ).push(
                            Val::TupleV {
                                elems: m0.stack.subrange(
                                    m0.stack.len() - code@[m0.pc as int]->BuildTuple_size,
                                    m0.stack.len() as int,
                                ),
                            },
                        ),
                        pc: m0.pc + 1,
                        ..m0
                    }));
                }
                StepResult::Going
            },
            _ => vstd::pervasive::unreached(),
        }
    }

    fn exec_build_map(&mut self, code: &CodeObject) -> (r: StepResult)
        requires
            old(self)@.pc < code@.len(),
            code@[old(self)@.pc as int] is BuildMap,
        ensures
            match step_spec(code@, old(self)@) {
                StepView::Going { next } => r is Going && final(self)@ == next,
                StepView::Done { result, machine } => (r matches StepResult::Done { value }
                    && value@ == result && final(self)@ == machine),
                StepView::Failed { error, machine } => (r matches StepResult::Failed {
                    error: e,
                } && e == error && final(self)@ == machine),
            },
    {
        let ghost m0: MachineView = self@;
        let pc = self.program_counter;
        let codelen = code.instructions.len();
        let n = self.stack.len();
        proof {
            lemma_vals_of(self.stack@);
        }
        match &code.instructions[pc] {
            Instruction::BuildMap { size } => {
                if *size % 2 != 0 {
                    return StepResult::Failed {
                        error: VmError::InternalError {
                            kind: InternalErrorKind::UnpairedMapEntries,
                        },
                    };
                }
                if *size > n {
                    return StepResult::Failed {
                        error: VmError::InternalError { kind: InternalErrorKind::StackUnderflow },
                    };
                }
                let ghost gsize: int = code@[m0.pc as int]->BuildMap_size as int;
                let ghost s0: Seq<PyObject> = self.stack@;
                let mut elements = pop_elements(&mut self.stack, *size);
                let ghost elems0: Seq<PyObject> = elements@;
                let half: usize = *size / 2;
                let mut keys: Vec<PyObject> = Vec::new();
                let mut values: Vec<PyObject> = Vec::new();
                let mut t: usize = 0;
                proof {
                    assert(elems0.skip(0) =~= elems0);
                }
                while t < half
                    invariant
                        t <= half,
                        half * 2 == elems0.len(),
                        elements@ == elems0.skip(2 * t),
                        keys@.len() == t,
                        values@.len() == t,
                        forall|k: int| 0 <= k < t ==> keys@[k] == elems0[2 * k],
                        forall|k: int| 0 <= k < t ==> values@[k] == elems0[2 * k + 1],
                    decreases half - t,
                {
                    let ghost e0: Seq<PyObject> = elements@;
                    let key = elements.remove(0);
                    let val = elements.remove(0);
                    keys.push(key);
                    values.push(val);
                    t = t + 1;
                    proof {
                        assert(e0.remove(0).remove(0) =~= elems0.skip(2 * t));
                        assert(e0[0] == elems0[2 * (t - 1)]);
                        assert(e0.remove(0)[0] == elems0[2 * (t - 1) + 1]);
                    }
                }
                let ghost s1: Seq<PyObject> = self.stack@;
                let ghost gkeys: Seq<PyObject> = keys@;
                let ghost gvalues: Seq<PyObject> = values@;
                self.stack.push(PyObject::Dict { keys, values });
                self.program_counter = pc + 1;
                proof {
                    lemma_vals_of_subrange(s0, 0, s0.len() - gsize);
                    assert(s1 =~= s0.subrange(0, s0.len() - gsize));
                    lemma_vals_of(s0);
                    lemma_vals_of(gkeys);
                    lemma_vals_of(gvalues);
                    lemma_vals_of_push(s1, self.stack@.last());
                    assert(self.stack@ =~= s1.push(self.stack@.last()));
                    assert(vals_of(gkeys) =~= Seq::new(
                        (gsize / 2) as nat,
                        |i: int| m0.stack[m0.stack.len() - gsize + 2 * i],
                    ));
                    assert(vals_of(gvalues) =~= Seq::new(
                        (gsize / 2) as nat,
                        |i: int| m0.stack[m0.stack.len() - gsize + 2 * i + 1],
                    ));
                    assert(self@ =~= (MachineView {
                        stack: m0.stack.take(m0.stack.len() - gsize).push(
                            Val::DictV {
                                keys: Seq::new(
                                    (gsize / 2) as nat,
                                    |i: int| m0.stack[m0.stack.len() - gsize + 2 * i],
                                ),
                                vals: Seq::new(
                                    (gsize / 2) as nat,
                                    |i: int| m0.stack[m0.stack.len() - gsize + 2 * i + 1],
                                ),
                            },
                        ),
                        pc: m0.pc + 1,
                        ..m0
                    }));
                }
                StepResult::Going
            },
            _ => vstd::pervasive::unreached(),
        }
    }

    fn exec_for_iter(&mut self, code: &CodeObject) -> (r: StepResult)
        requires
            old(self)@.pc < code@.len(),
            code@[old(self)@.pc as int] is ForIter,
        ensures
            match step_spec(code@, old(self)@) {
                StepView::Going { next } => r is Going && final(self)@ == next,
                StepView::Done { result, machine } => (r matches StepResult::Done { value }
                    && value@ == result && final(self)@ == machine),
                StepView::Failed { error, machine } => (r matches StepResult::Failed {
                    error: e,
                } && e == error && final(self)@ == machine),
            },
    {
        let ghost m0: MachineView = self@;
        let pc = self.program_counter;
        let codelen = code.instructions.len();
        let n = self.stack.len();
        proof {
            lemma_vals_of(self.stack@);
        }
        if n == 0 {
            return StepResult::Failed {
                error: VmError::InternalError { kind: InternalErrorKind::StackUnderflow },
            };
        }
        let live: bool = match &self.stack[n - 1] {
            PyObject::Iterator { position: _, iterated_obj } => match &**iterated_obj {
                PyObject::List { .. } => true,
                PyObject::Tuple { .. } => true,
                _ => false,
            },
            _ => false,
        };
        proof {
            reveal_with_fuel(val_of, 2);
        }
        if !live {
            return StepResult::Failed {
                error: VmError::InternalError { kind: InternalErrorKind::IteratorMismatch },
            };
        }
        let ghost s0: Seq<PyObject> = self.stack@;
        match self.stack.pop() {
            Option::Some(it) => {
                proof {
                    lemma_vals_of_drop_last(s0);
                    assert(s0.subrange(0, s0.len() - 1) =~= s0.drop_last());
                }
                let (advanced, element) = it.nxt();
                let ghost s1: Seq<PyObject> = self.stack@;
                self.stack.push(advanced);
                proof {
                    lemma_vals_of_push(s1, self.stack@.last());
                    assert(self.stack@ =~= s1.push(self.stack@.last()));
                }
                match element {
                    Option::Some(e) => {
                        let ghost s2: Seq<PyObject> = self.stack@;
                        self.stack.push(e);
                        self.program_counter = pc + 1;
                        proof {
                            lemma_vals_of_push(s2, self.stack@.last());
                            assert(self.stack@ =~= s2.push(self.stack@.last()));
                            assert(vals_of(s2) =~= m0.stack.update(
                                m0.stack.len() - 1,
                                iter_advanced(m0.stack.last()),
                            ));
                            assert(self@ =~= (MachineView {
                                stack: m0.stack.update(
                                    m0.stack.len() - 1,
                                    iter_advanced(m0.stack.last()),
                                ).push(iter_element(m0.stack.last())->Some_0),
                                pc: m0.pc + 1,
                                ..m0
                            }));
                        }
                        StepResult::Going
                    },
                    Option::None => {
                        proof {
                            assert(vals_of(self.stack@) =~= m0.stack);
                            assert(self@ =~= m0);
                        }
                        if self.blocks.len() == 0 {
                            return StepResult::Failed {
                                error: VmError::InternalError {
                                    kind: InternalErrorKind::BlockUnderflow,
                                },
                            };
                        }
                        let b: Block = self.blocks[self.blocks.len() - 1];
                        if b.end <= codelen {
                            let ghost b0: Seq<Block> = self.blocks@;
                            let _ = self.blocks.pop();
                            self.program_counter = b.end;
                            proof {
                                assert(b0.subrange(0, b0.len() - 1) =~= b0.drop_last());
                                assert(self@ =~= (MachineView {
                                    blocks: m0.blocks.drop_last(),
                                    pc: m0.blocks.last().end as nat,
                                    ..m0
                                }));
                            }
                            StepResult::Going
                        } else {
                            StepResult::Failed {
                                error: VmError::InternalError {
                                    kind: InternalErrorKind::InvalidJumpTarget { target: b.end },
                                },
                            }
                        }
                    },
                }
            },
            Option::None => vstd::pervasive::unreached(),
        }
    }

    fn exec_call_function(&mut self, code: &CodeObject) -> (r: StepResult)
        requires
            old(self)@.pc < code@.len(),
            code@[old(self)@.pc as int] is CallFunction,
        ensures
            match step_spec(code@, old(self)@) {
                StepView::Going { next } => r is Going && final(self)@ == next,
                StepView::Done { result, machine } => (r matches StepResult::Done { value }
                    && value@ == result && final(self)@ == machine),
                StepView::Failed { error, machine } => (r matches StepResult::Failed {
                    error: e,
                } && e == error && final(self)@ == machine),
            },
    {
        let ghost m0: MachineView = self@;
        let pc = self.program_counter;
        let codelen = code.instructions.len();
        let n = self.stack.len();
        proof {
            lemma_vals_of(self.stack@);
        }
        match &code.instructions[pc] {
            Instruction::CallFunction { count } => {
                if !(*count < n) {
                    return StepResult::Failed {
                        error: VmError::InternalError { kind: InternalErrorKind::StackUnderflow },
                    };
                }
                let args = duplicate_tail(&self.stack, n - *count);
                let effect = (&self.stack[n - *count - 1]).call(&args);
                match effect {
                    Ok(eff) => {
                        let ghost s0: Seq<PyObject> = self.stack@;
                        let ghost gcount: int = code@[m0.pc as int]->CallFunction_count as int;
                        self.stack.truncate(n - *count - 1);
                        proof {
                            lemma_vals_of_subrange(s0, 0, s0.len() - gcount - 1);
                            assert(s0.subrange(0, s0.len() - gcount - 1) =~= s0.take(
                                s0.len() - gcount - 1,
                            ));
                            assert(vals_of(s0).subrange(0, s0.len() - gcount - 1) =~= vals_of(
                                s0,
                            ).take(s0.len() - gcount - 1));
                        }
                        let ghost s1: Seq<PyObject> = self.stack@;
                        let ghost out0: Seq<String> = self.output@;
                        let ghost efflines: Seq<String> = eff.lines@;
                        let ghost effvalue: Val = eff.value@;
                        self.stack.push(eff.value);
                        let mut lines = eff.lines;
                        self.output.append(&mut lines);
                        self.program_counter = pc + 1;
                        proof {
                            lemma_vals_of_push(s1, self.stack@.last());
                            assert(self.stack@ =~= s1.push(self.stack@.last()));
                            assert(lines_view(self.output@) =~= lines_view(out0) + lines_view(
                                efflines,
                            ));
                            assert(vals_of(args@) =~= m0.stack.subrange(
                                m0.stack.len() - gcount,
                                m0.stack.len() as int,
                            ));
                            assert(self@ =~= (MachineView {
                                stack: m0.stack.take(m0.stack.len() - gcount - 1).push(
                                    call_spec(
                                        m0.stack[m0.stack.len() - gcount - 1],
                                        m0.stack.subrange(
                                            m0.stack.len() - gcount,
                                            m0.stack.len() as int,
                                        ),
                                    )->Ok_0.value,
                                ),
                                output: m0.output + call_spec(
                                    m0.stack[m0.stack.len() - gcount - 1],
                                    m0.stack.subrange(
                                        m0.stack.len() - gcount,
                                        m0.stack.len() as int,
                                    ),
                                )->Ok_0.lines,
                                pc: m0.pc + 1,
                                ..m0
                            }));
                        }
                        StepResult::Going
                    },
                    Err(e) => {
                        proof {
                            assert(vals_of(args@) =~= m0.stack.subrange(
                                m0.stack.len() - (code@[m0.pc as int]->CallFunction_count as int),
                                m0.stack.len() as int,
                            ));
                        }
                        StepResult::Failed { error: e }
                    },
                }
            },
            _ => vstd::pervasive::unreached(),
        }
    }

    fn exec_return_value(&mut self, code: &CodeObject) -> (r: StepResult)
        requires
            old(self)@.pc < code@.len(),
            code@[old(self)@.pc as int] is ReturnValue,
        ensures
            match step_spec(code@, old(self)@) {
                StepView::Going { next } => r is Going && final(self)@ == next,
                StepView::Done { result, machine } => (r matches StepResult::Done { value }
                    && value@ == result && final(self)@ == machine),
                StepView::Failed { error, machine } => (r matches StepResult::Failed {
                    error: e,
                } && e == error && final(self)@ == machine),
            },
    {
        let ghost m0: MachineView = self@;
        proof {
            lemma_vals_of(self.stack@);
        }
        if self.stack.len() == 0 {
            return StepResult::Failed {
                error: VmError::InternalError { kind: InternalErrorKind::StackUnderflow },
            };
        }
        let ghost s0: Seq<PyObject> = self.stack@;
        match self.stack.pop() {
            Option::Some(v) => {
                proof {
                    lemma_vals_of_drop_last(s0);
                    assert(s0.subrange(0, s0.len() - 1) =~= s0.drop_last());
                    assert(self@ =~= (MachineView { stack: m0.stack.drop_last(), ..m0 }));
                }
                StepResult::Done { value: v }
            },
            Option::None => vstd::pervasive::unreached(),
        }
    }

    /// Fetches and executes the one instruction under the program counter,
    /// implementing the one-step machine exactly.
    pub fn execute_instruction(&mut self, code: &CodeObject) -> (r: StepResult)
        requires
            old(self)@.pc < code@.len(),
        ensures
            match step_spec(code@, old(self)@) {
                StepView::Going { next } => r is Going && final(self)@ == next,
                StepView::Done { result, machine } => (r matches StepResult::Done { value }
                    && value@ == result && final(self)@ == machine),
                StepView::Failed { error, machine } => (r matches StepResult::Failed {
                    error: e,
                } && e == error && final(self)@ == machine),
            },
    {
        let ghost m0: MachineView = self@;
        let pc = self.program_counter;
        let codelen = code.instructions.len();
        match &code.instructions[pc] {
            Instruction::LoadName { .. } => self.exec_load_name(code),
            Instruction::StoreName { .. } => self.exec_store_name(code),
            Instruction::LoadConst { value } => {
                let ghost s0: Seq<PyObject> = self.stack@;
                self.stack.push(PyObject::Integer { value: *value });
                self.program_counter = pc + 1;
                proof {
                    lemma_vals_of_push(s0, self.stack@.last());
                    assert(self.stack@ =~= s0.push(self.stack@.last()));
                    assert(self@ =~= (MachineView {
                        stack: m0.stack.push(Val::IntV { n: code@[m0.pc as int]->LoadConst_value }),
                        pc: m0.pc + 1,
                        ..m0
                    }));
                }
                StepResult::Going
            },
            Instruction::LoadStringConstant { value } => {
                let ghost s0: Seq<PyObject> = self.stack@;
                self.stack.push(PyObject::String { value: value.clone() });
                self.program_counter = pc + 1;
                proof {
                    lemma_vals_of_push(s0, self.stack@.last());
                    assert(self.stack@ =~= s0.push(self.stack@.last()));
                    assert(self@ =~= (MachineView {
                        stack: m0.stack.push(
                            Val::StrV { s: code@[m0.pc as int]->LoadStringConstant_value@ },
                        ),
                        pc: m0.pc + 1,
                        ..m0
                    }));
                }
                StepResult::Going
            },
            Instruction::LoadNone => {
                let ghost s0: Seq<PyObject> = self.stack@;
                self.stack.push(PyObject::NoValue);
                self.program_counter = pc + 1;
                proof {
                    lemma_vals_of_push(s0, self.stack@.last());
                    assert(self.stack@ =~= s0.push(self.stack@.last()));
                    assert(self@ =~= (MachineView {
                        stack: m0.stack.push(Val::NoneV),
                        pc: m0.pc + 1,
                        ..m0
                    }));
                }
                StepResult::Going
            },
            Instruction::BinaryOperation { .. } => self.exec_binary_operation(code),
            Instruction::Pop => {
                proof {
                    lemma_vals_of(self.stack@);
                }
                if self.stack.len() == 0 {
                    return StepResult::Failed {
                        error: VmError::InternalError { kind: InternalErrorKind::StackUnderflow },
                    };
                }
                let ghost s0: Seq<PyObject> = self.stack@;
                let _ = self.stack.pop();
                self.program_counter = pc + 1;
                proof {
                    lemma_vals_of_drop_last(s0);
                    assert(s0.subrange(0, s0.len() - 1) =~= s0.drop_last());
                    assert(self@ =~= (MachineView {
                        stack: m0.stack.drop_last(),
                        pc: m0.pc + 1,
                        ..m0
                    }));
                }
                StepResult::Going
            },
            Instruction::GetIter => self.exec_get_iter(code),
            Instruction::Pass => {
                self.program_counter = pc + 1;
                proof {
                    assert(self@ =~= (MachineView { pc: m0.pc + 1, ..m0 }));
                }
                StepResult::Going
            },
            Instruction::Continue => self.exec_continue(code),
            Instruction::Break => self.exec_break(code),
            Instruction::CallFunction { .. } => self.exec_call_function(code),
            Instruction::ForIter => self.exec_for_iter(code),
            Instruction::ReturnValue => self.exec_return_value(code),
            Instruction::PushBlock { start, end } => {
                self.blocks.push(Block { start: *start, end: *end });
                self.program_counter = pc + 1;
                proof {
                    assert(self@ =~= (MachineView {
                        blocks: m0.blocks.push(
                            Block {
                                start: code@[m0.pc as int]->PushBlock_start,
                                end: code@[m0.pc as int]->PushBlock_end,
                            },
                        ),
                        pc: m0.pc + 1,
                        ..m0
                    }));
                }
                StepResult::Going
            },
            Instruction::PopBlock => {
                if self.blocks.len() == 0 {
                    return StepResult::Failed {
                        error: VmError::InternalError { kind: InternalErrorKind::BlockUnderflow },
                    };
                }
                let ghost b0: Seq<Block> = self.blocks@;
                let _ = self.blocks.pop();
                self.program_counter = pc + 1;
                proof {
                    assert(b0.subrange(0, b0.len() - 1) =~= b0.drop_last());
                    assert(self@ =~= (MachineView {
                        blocks: m0.blocks.drop_last(),
                        pc: m0.pc + 1,
                        ..m0
                    }));
                }
                StepResult::Going
            },
            Instruction::JumpIfFalse { .. } => self.exec_jump_if_false(code),
            Instruction::BuildTuple { .. } => self.exec_build_tuple(code),
            Instruction::BuildList { .. } => self.exec_build_list(code),
            Instruction::BuildMap { .. } => self.exec_build_map(code),
        }
    }

    /// Drives the fetch–decode–execute loop for at most `fuel` steps,
    /// computing exactly what the iterated one-step machine computes.
    pub fn run(&mut self, code: &CodeObject, fuel: u64) -> (r: RunResult)
        ensures
            match run_spec(code@, old(self)@, fuel as nat) {
                RunView::Finished { result, machine } => (r matches RunResult::Finished { value }
                    && value@ == result && final(self)@ == machine),
                RunView::Failed { error, machine } => (r matches RunResult::Failed { error: e }
                    && e == error && final(self)@ == machine),
                RunView::Stopped { machine } => r is Stopped && final(self)@ == machine,
            },
    {
        let mut remaining: u64 = fuel;
        loop
            invariant
                remaining <= fuel,
                run_spec(code@, old(self)@, fuel as nat) == run_spec(
                    code@,
                    self@,
                    remaining as nat,
                ),
            decreases remaining,
        {
            if self.program_counter >= code.instructions.len() {
                return RunResult::Finished { value: PyObject::NoValue };
            }
            if remaining == 0 {
                return RunResult::Stopped;
            }
            match self.execute_instruction(code) {
                StepResult::Going => {},
                StepResult::Done { value } => {
                    return RunResult::Finished { value };
                },
                StepResult::Failed { error } => {
                    return RunResult::Failed { error };
                },
            }
            remaining = remaining - 1;
        }
    }
}

/// How one whole evaluation ended: the result value or the failure, and in
/// every case the final machine, whose scope and output remain inspectable.
#[derive(Debug)]
pub enum EvalOutcome {
    Success { value: PyObject, machine: VirtualMachine },
    Failure { error: VmError, machine: VirtualMachine },
    Exhausted { machine: VirtualMachine },
}

/// The most steps one evaluation will take. The language defines no timeout
/// — an endless loop runs to process termination — so the budget is only the
/// machine's counting limit, not a semantic bound a real program reaches.
pub const STEP_BUDGET: u64 = 0xffff_ffff_ffff_ffff;

/// Drives a fresh machine over `code` to completion: the machine is created,
/// seeded with the built-in bindings, and run until the code is exhausted, a
/// `ReturnValue` halts it, or a fatal condition surfaces. The outcome is
/// exactly what the specification machine computes from the initial state;
/// on failure the machine state at the failure comes back for inspection.
pub fn evaluate(code: CodeObject) -> (r: EvalOutcome)
    ensures
        match r {
            EvalOutcome::Success { value, machine } => run_spec(
                code@,
                init_machine_view(),
                STEP_BUDGET as nat,
            ) == (RunView::Finished { result: value@, machine: machine@ }),
            EvalOutcome::Failure { error, machine } => run_spec(
                code@,
                init_machine_view(),
                STEP_BUDGET as nat,
            ) == (RunView::Failed { error, machine: machine@ }),
            EvalOutcome::Exhausted { machine } => run_spec(
                code@,
                init_machine_view(),
                STEP_BUDGET as nat,
            ) == (RunView::Stopped { machine: machine@ }),
        },
{
    let mut vm = VirtualMachine::new();
    builtins::fill_scope(&mut vm.scope);
    proof {
        assert(vm@ =~= init_machine_view());
    }
    match vm.run(&code, STEP_BUDGET) {
        RunResult::Finished { value } => EvalOutcome::Success { value, machine: vm },
        RunResult::Failed { error } => EvalOutcome::Failure { error, machine: vm },
        RunResult::Stopped => EvalOutcome::Exhausted { machine: vm },
    }
}

} // verus!
