//! The object model: tagged-variant runtime values and the operators defined
//! over them. Primitive values are immutable — every operator produces a new
//! value — and composite values own their elements, which are copied rather
//! than aliased, so no value is ever mutated through a shared reference.
//!
//! Every executable operation is specified against [`Val`], the mathematical
//! shape of a value: machine strings become character sequences and element
//! vectors become sequences, so contracts speak of contents, not containers.

use vstd::prelude::*;
use vstd::string::StringExecFns;

use crate::builtins;
use crate::bytecode::BinaryOperator;
use crate::decimal::{dec_int, int_to_string};
use crate::errors::{TypeErrorKind, ValueTag, VmError};

verus! {

/// The host-provided built-in functions. A native function is identified by
/// a closed tag; the machine interprets the tag when the value is called.
/// Installing a new built-in means adding a tag and its interpretation.
#[derive(Debug, Clone, Copy, PartialEq, Eq, Structural)]
pub enum NativeFunction {
    /// Renders each argument, joins them with single spaces and emits the
    /// result as one output line.
    Print,
}

/// A runtime value.
///
/// `Iterator` is a distinct, exclusively owned value while iterating: the
/// machine keeps it on its operand stack alone, so advancing it needs no
/// interior mutability through a shared reference.
#[derive(Debug)]
pub enum PyObject {
    /// A machine integer. Arithmetic on integers wraps around on overflow;
    /// the wrapping policy is fixed and stated in each operator's contract.
    Integer { value: i32 },
    /// An immutable text value.
    String { value: String },
    /// An ordered sequence of values, in source order.
    List { elements: Vec<PyObject> },
    /// An ordered, immutable sequence of values, in source order.
    Tuple { elements: Vec<PyObject> },
    /// A mapping, kept as key/value columns in construction order.
    Dict { keys: Vec<PyObject>, values: Vec<PyObject> },
    /// A host-provided callable. The design leaves room for a second callable
    /// variant — a user-defined function carrying a name, a parameter list
    /// and its own code object, called by binding arguments positionally into
    /// a fresh scope and running the code object to its return value — but
    /// only the native case ships in this subset.
    RustFunction { function: NativeFunction },
    /// A cursor over the elements of a list or tuple: `position` counts how
    /// many elements were already yielded from `iterated_obj`.
    Iterator { position: usize, iterated_obj: Box<PyObject> },
    /// The explicit no-value sentinel: every callable path pushes it when the
    /// callee yields nothing, so calling always yields exactly one value.
    NoValue,
}

/// The mathematical shape of a runtime value.
pub enum Val {
    IntV { n: i32 },
    StrV { s: Seq<char> },
    ListV { elems: Seq<Val> },
    TupleV { elems: Seq<Val> },
    DictV { keys: Seq<Val>, vals: Seq<Val> },
    FuncV { f: NativeFunction },
    IterV { position: usize, source: Box<Val> },
    NoneV,
}

/// The shape of `v`.
pub open spec fn val_of(v: PyObject) -> Val
    decreases v,
{
    match v {
        PyObject::Integer { value } => Val::IntV { n: value },
        PyObject::String { value } => Val::StrV { s: value@ },
        PyObject::List { elements } => Val::ListV { elems: vals_of(elements@) },
        PyObject::Tuple { elements } => Val::TupleV { elems: vals_of(elements@) },
        PyObject::Dict { keys, values } => Val::DictV {
            keys: vals_of(keys@),
            vals: vals_of(values@),
        },
        PyObject::RustFunction { function } => Val::FuncV { f: function },
        PyObject::Iterator { position, iterated_obj } => Val::IterV {
            position,
            source: Box::new(val_of(*iterated_obj)),
        },
        PyObject::NoValue => Val::NoneV,
    }
}

/// The shapes of every value of `s`, in order.
pub open spec fn vals_of(s: Seq<PyObject>) -> Seq<Val>
    decreases s,
{
    if s.len() == 0 {
        Seq::<Val>::empty()
    } else {
        vals_of(s.drop_last()).push(val_of(s.last()))
    }
}

impl View for PyObject {
    type V = Val;

    open spec fn view(&self) -> Val {
        val_of(*self)
    }
}

/// `vals_of` is the element-wise shape map.
pub proof fn lemma_vals_of(s: Seq<PyObject>)
    ensures
        vals_of(s).len() == s.len(),
        forall|i: int| 0 <= i < s.len() ==> #[trigger] vals_of(s)[i] == val_of(s[i]),
    decreases s.len(),
{
    if s.len() > 0 {
        lemma_vals_of(s.drop_last());
    }
}

/// Pushing a value pushes its shape.
pub proof fn lemma_vals_of_push(s: Seq<PyObject>, x: PyObject)
    ensures
        vals_of(s.push(x)) == vals_of(s).push(val_of(x)),
{
    assert(s.push(x).drop_last() =~= s);
    assert(s.push(x).last() == x);
}

/// Dropping the last value drops the last shape.
pub proof fn lemma_vals_of_drop_last(s: Seq<PyObject>)
    requires
        s.len() > 0,
    ensures
        vals_of(s.drop_last()) == vals_of(s).drop_last(),
{
    lemma_vals_of(s);
    lemma_vals_of(s.drop_last());
    assert(vals_of(s.drop_last()) =~= vals_of(s).drop_last());
}

/// Taking a segment of values takes the same segment of shapes.
pub proof fn lemma_vals_of_subrange(s: Seq<PyObject>, i: int, j: int)
    requires
        0 <= i <= j <= s.len(),
    ensures
        vals_of(s.subrange(i, j)) == vals_of(s).subrange(i, j),
{
    lemma_vals_of(s);
    lemma_vals_of(s.subrange(i, j));
    assert(vals_of(s.subrange(i, j)) =~= vals_of(s).subrange(i, j));
}

/// The variant tag of `v`.
pub open spec fn spec_tag_of(v: Val) -> ValueTag {
    match v {
        Val::IntV { .. } => ValueTag::Integer,
        Val::StrV { .. } => ValueTag::String,
        Val::ListV { .. } => ValueTag::List,
        Val::TupleV { .. } => ValueTag::Tuple,
        Val::DictV { .. } => ValueTag::Dict,
        Val::FuncV { .. } => ValueTag::Function,
        Val::IterV { .. } => ValueTag::Iterator,
        Val::NoneV => ValueTag::NoValue,
    }
}

/// Reports which variant `v` carries, for error context.
pub fn tag_of(v: &PyObject) -> (t: ValueTag)
    ensures
        t == spec_tag_of(v@),
{
    match v {
        PyObject::Integer { .. } => ValueTag::Integer,
        PyObject::String { .. } => ValueTag::String,
        PyObject::List { .. } => ValueTag::List,
        PyObject::Tuple { .. } => ValueTag::Tuple,
        PyObject::Dict { .. } => ValueTag::Dict,
        PyObject::RustFunction { .. } => ValueTag::Function,
        PyObject::Iterator { .. } => ValueTag::Iterator,
        PyObject::NoValue => ValueTag::NoValue,
    }
}

/// `s` repeated `n` times.
pub open spec fn repeat_seq(s: Seq<char>, n: nat) -> Seq<char>
    decreases n,
{
    if n == 0 {
        Seq::<char>::empty()
    } else {
        repeat_seq(s, (n - 1) as nat) + s
    }
}

/// The undefined-combination failure for `op` over `a` and `b`.
pub open spec fn binop_mismatch(op: BinaryOperator, a: Val, b: Val) -> Result<Val, VmError> {
    Err(
        VmError::TypeError {
            kind: TypeErrorKind::BinaryMismatch {
                op,
                lhs: spec_tag_of(a),
                rhs: spec_tag_of(b),
            },
        },
    )
}

/// What a binary operator yields. A binary operator is a partial function
/// over value shapes: integer addition, subtraction and multiplication wrap
/// on overflow; multiplying a string by an integer `n` repeats it `n` times
/// (`n <= 0` yields the empty string, and the reversed operand order is
/// rejected); every other operator/operand combination is a type mismatch.
pub open spec fn binop_spec(op: BinaryOperator, a: Val, b: Val) -> Result<Val, VmError> {
    match op {
        BinaryOperator::Add => match (a, b) {
            (Val::IntV { n: x }, Val::IntV { n: y }) => Ok(
                Val::IntV { n: vstd::wrapping::i32_specs::wrapping_add(x, y) },
            ),
            _ => binop_mismatch(op, a, b),
        },
        BinaryOperator::Subtract => match (a, b) {
            (Val::IntV { n: x }, Val::IntV { n: y }) => Ok(
                Val::IntV { n: vstd::wrapping::i32_specs::wrapping_sub(x, y) },
            ),
            _ => binop_mismatch(op, a, b),
        },
        BinaryOperator::Multiply => match (a, b) {
            (Val::IntV { n: x }, Val::IntV { n: y }) => Ok(
                Val::IntV { n: vstd::wrapping::i32_specs::wrapping_mul(x, y) },
            ),
            (Val::StrV { s }, Val::IntV { n: y }) => Ok(
                Val::StrV {
                    s: repeat_seq(
                        s,
                        if y <= 0 {
                            0
                        } else {
                            y as nat
                        },
                    ),
                },
            ),
            _ => binop_mismatch(op, a, b),
        },
        _ => binop_mismatch(op, a, b),
    }
}

/// The shape of a value result: the error as it stands, the value by shape.
pub open spec fn obj_res_view(r: Result<PyObject, VmError>) -> Result<Val, VmError> {
    match r {
        Ok(p) => Ok(p@),
        Err(e) => Err(e),
    }
}

/// The shape of a text result.
pub open spec fn str_res_view(r: Result<String, VmError>) -> Result<Seq<char>, VmError> {
    match r {
        Ok(s) => Ok(s@),
        Err(e) => Err(e),
    }
}

/// The shapes of a sequence of output lines.
pub open spec fn lines_view(v: Seq<String>) -> Seq<Seq<char>> {
    Seq::new(v.len(), |i: int| v[i]@)
}

/// What calling a value does: one result value, plus the output lines the
/// call emitted.
pub struct CallEffect {
    pub value: PyObject,
    pub lines: Vec<String>,
}

/// The shape of a call's effect.
pub struct CallEffectView {
    pub value: Val,
    pub lines: Seq<Seq<char>>,
}

/// The shape of a call result.
pub open spec fn effect_res_view(r: Result<CallEffect, VmError>) -> Result<
    CallEffectView,
    VmError,
> {
    match r {
        Ok(c) => Ok(CallEffectView { value: c.value@, lines: lines_view(c.lines@) }),
        Err(e) => Err(e),
    }
}

/// What calling `callee` on `args` yields. Only a native function is
/// callable; `Print` renders its arguments into one space-joined line and
/// yields the no-value sentinel, so every call pushes exactly one result.
pub open spec fn call_spec(callee: Val, args: Seq<Val>) -> Result<CallEffectView, VmError> {
    match callee {
        Val::FuncV { f } => match f {
            NativeFunction::Print => match builtins::join_from(args, 0) {
                Ok(line) => Ok(CallEffectView { value: Val::NoneV, lines: seq![line] }),
                Err(e) => Err(e),
            },
        },
        _ => Err(VmError::TypeError { kind: TypeErrorKind::NotCallable { tag: spec_tag_of(callee) } }),
    }
}

/// What the advanced iterator looks like: one past its position while
/// elements remain, unchanged once exhausted (exhaustion is idempotent).
pub open spec fn iter_advanced(v: Val) -> Val {
    match v {
        Val::IterV { position, source } => match *source {
            Val::ListV { elems } => if position < elems.len() {
                Val::IterV { position: (position + 1) as usize, source }
            } else {
                v
            },
            Val::TupleV { elems } => if position < elems.len() {
                Val::IterV { position: (position + 1) as usize, source }
            } else {
                v
            },
            _ => v,
        },
        _ => v,
    }
}

/// The element an iterator yields at its position, if any remains.
pub open spec fn iter_element(v: Val) -> Option<Val> {
    match v {
        Val::IterV { position, source } => match *source {
            Val::ListV { elems } => if position < elems.len() {
                Some(elems[position as int])
            } else {
                None
            },
            Val::TupleV { elems } => if position < elems.len() {
                Some(elems[position as int])
            } else {
                None
            },
            _ => None,
        },
        _ => None,
    }
}

/// Whether `v` is an iterator whose source is an iterable sequence.
pub open spec fn is_live_iterator(v: Val) -> bool {
    match v {
        Val::IterV { position, source } => match *source {
            Val::ListV { .. } => true,
            Val::TupleV { .. } => true,
            _ => false,
        },
        _ => false,
    }
}

/// The shape of an optional value.
pub open spec fn opt_view(r: Option<PyObject>) -> Option<Val> {
    match r {
        Some(p) => Some(p@),
        None => None,
    }
}

impl PyObject {
    /// A value equal in shape to this one. Primitive and composite values
    /// alike are immutable, so a copy is indistinguishable from a shared
    /// reference to the original.
    pub fn duplicate(&self) -> (r: PyObject)
        ensures
            r@ == self@,
        decreases self,
    {
        match self {
            PyObject::Integer { value } => PyObject::Integer { value: *value },
            PyObject::String { value } => PyObject::String { value: value.clone() },
            PyObject::List { elements } => {
                let out = duplicate_elements(elements);
                PyObject::List { elements: out }
            },
            PyObject::Tuple { elements } => {
                let out = duplicate_elements(elements);
                PyObject::Tuple { elements: out }
            },
            PyObject::Dict { keys, values } => {
                let ks = duplicate_elements(keys);
                let vs = duplicate_elements(values);
                PyObject::Dict { keys: ks, values: vs }
            },
            PyObject::RustFunction { function } => PyObject::RustFunction { function: *function },
            PyObject::Iterator { position, iterated_obj } => {
                let inner = (&**iterated_obj).duplicate();
                PyObject::Iterator { position: *position, iterated_obj: Box::new(inner) }
            },
            PyObject::NoValue => PyObject::NoValue,
        }
    }

    /// Integer addition; wraps on overflow. Every other operand pair is a
    /// type mismatch: nothing is coerced.
    pub fn add(&self, rhs: &PyObject) -> (r: Result<PyObject, VmError>)
        ensures
            obj_res_view(r) == binop_spec(BinaryOperator::Add, self@, rhs@),
    {
        match (self, rhs) {
            (PyObject::Integer { value: a }, PyObject::Integer { value: b }) => Ok(
                PyObject::Integer { value: a.wrapping_add(*b) },
            ),
            _ => Err(
                VmError::TypeError {
                    kind: TypeErrorKind::BinaryMismatch {
                        op: BinaryOperator::Add,
                        lhs: tag_of(self),
                        rhs: tag_of(rhs),
                    },
                },
            ),
        }
    }

    /// Integer subtraction; wraps on overflow. Every other operand pair is a
    /// type mismatch.
    pub fn sub(&self, rhs: &PyObject) -> (r: Result<PyObject, VmError>)
        ensures
            obj_res_view(r) == binop_spec(BinaryOperator::Subtract, self@, rhs@),
    {
        match (self, rhs) {
            (PyObject::Integer { value: a }, PyObject::Integer { value: b }) => Ok(
                PyObject::Integer { value: a.wrapping_sub(*b) },
            ),
            _ => Err(
                VmError::TypeError {
                    kind: TypeErrorKind::BinaryMismatch {
                        op: BinaryOperator::Subtract,
                        lhs: tag_of(self),
                        rhs: tag_of(rhs),
                    },
                },
            ),
        }
    }

    /// Integer multiplication wraps on overflow; a string times an integer
    /// `n` is the string repeated `n` times, the empty string for `n <= 0`.
    /// The reversed order, integer times string, is rejected as a mismatch.
    pub fn mul(&self, rhs: &PyObject) -> (r: Result<PyObject, VmError>)
        ensures
            obj_res_view(r) == binop_spec(BinaryOperator::Multiply, self@, rhs@),
    {
        match (self, rhs) {
            (PyObject::Integer { value: a }, PyObject::Integer { value: b }) => Ok(
                PyObject::Integer { value: a.wrapping_mul(*b) },
            ),
            (PyObject::String { value: s }, PyObject::Integer { value: b }) => {
                let count: usize = if *b <= 0 {
                    0
                } else {
                    *b as usize
                };
                let mut result: String = String::new();
                let mut j: usize = 0;
                while j < count
                    invariant
                        j <= count,
                        result@ == repeat_seq(s@, j as nat),
                    decreases count - j,
                {
                    result.append(s.as_str());
                    j = j + 1;
                }
                Ok(PyObject::String { value: result })
            },
            _ => Err(
                VmError::TypeError {
                    kind: TypeErrorKind::BinaryMismatch {
                        op: BinaryOperator::Multiply,
                        lhs: tag_of(self),
                        rhs: tag_of(rhs),
                    },
                },
            ),
        }
    }

    /// Renders this value as text: an integer by its decimal digits, a string
    /// by its own content. Rendering any other variant fails explicitly
    /// rather than silently stringifying a tag name.
    pub fn str(&self) -> (r: Result<String, VmError>)
        ensures
            str_res_view(r) == render_val(self@),
    {
        match self {
            PyObject::Integer { value } => Ok(int_to_string(*value)),
            PyObject::String { value } => Ok(value.clone()),
            _ => Err(
                VmError::TypeError { kind: TypeErrorKind::NotRenderable { tag: tag_of(self) } },
            ),
        }
    }

    /// Calls this value with `args`, already in left-to-right order. Only
    /// the native-function variant is callable in this subset; calling any
    /// other variant is a type failure. (A user-defined-function variant
    /// would dispatch here as well: bind the arguments into a fresh scope,
    /// run its code object, and yield its returned value.)
    pub fn call(&self, args: &Vec<PyObject>) -> (r: Result<CallEffect, VmError>)
        ensures
            effect_res_view(r) == call_spec(self@, vals_of(args@)),
    {
        match self {
            PyObject::RustFunction { function } => match function {
                NativeFunction::Print => match builtins::print_line(args) {
                    Ok(line) => {
                        let ghost gline: Seq<char> = line@;
                        let mut lines: Vec<String> = Vec::new();
                        lines.push(line);
                        proof {
                            assert(lines_view(lines@) =~= seq![gline]);
                        }
                        Ok(CallEffect { value: PyObject::NoValue, lines })
                    },
                    Err(e) => Err(e),
                },
            },
            _ => Err(
                VmError::TypeError { kind: TypeErrorKind::NotCallable { tag: tag_of(self) } },
            ),
        }
    }

    /// Advances the iterator: yields the next source element and steps the
    /// position while elements remain; once exhausted it yields nothing and
    /// the value comes back unchanged, so exhaustion is idempotent.
    pub fn nxt(self) -> (r: (PyObject, Option<PyObject>))
        requires
            is_live_iterator(self@),
        ensures
            r.0@ == iter_advanced(self@),
            opt_view(r.1) == iter_element(self@),
    {
        proof {
            reveal_with_fuel(val_of, 2);
        }
        match self {
            PyObject::Iterator { position, iterated_obj } => {
                let element: Option<PyObject> = match &*iterated_obj {
                    PyObject::List { elements } => {
                        proof {
                            lemma_vals_of(elements@);
                        }
                        if position < elements.len() {
                            Some(elements[position].duplicate())
                        } else {
                            None
                        }
                    },
                    PyObject::Tuple { elements } => {
                        proof {
                            lemma_vals_of(elements@);
                        }
                        if position < elements.len() {
                            Some(elements[position].duplicate())
                        } else {
                            None
                        }
                    },
                    _ => vstd::pervasive::unreached(),
                };
                match element {
                    Some(e) => (
                        PyObject::Iterator { position: position + 1, iterated_obj },
                        Some(e),
                    ),
                    None => (PyObject::Iterator { position, iterated_obj }, None),
                }
            },
            _ => vstd::pervasive::unreached(),
        }
    }
}

/// Copies of every element of `elements`, equal in shape, in order.
fn duplicate_elements(elements: &Vec<PyObject>) -> (out: Vec<PyObject>)
    ensures
        vals_of(out@) == vals_of(elements@),
    decreases elements,
{
    let mut out: Vec<PyObject> = Vec::new();
    let mut j: usize = 0;
    while j < elements.len()
        invariant
            j <= elements@.len(),
            out@.len() == j,
            forall|k: int| 0 <= k < j ==> #[trigger] out@[k]@ == elements@[k]@,
        decreases elements@.len() - j,
    {
        let copied = elements[j].duplicate();
        out.push(copied);
        j = j + 1;
    }
    proof {
        lemma_vals_of(out@);
        lemma_vals_of(elements@);
        assert forall|k: int| 0 <= k < elements@.len() implies vals_of(out@)[k] == vals_of(
            elements@,
        )[k] by {
            assert(out@[k]@ == elements@[k]@);
        }
        assert(vals_of(out@) =~= vals_of(elements@));
    }
    out
}

/// Applies one binary operator: the total dispatch from the operator tag to
/// the object model's partial operator functions. Operators outside the
/// supported subset fail as a mismatch for every operand pair.
pub fn binary_operation(op: &BinaryOperator, a: &PyObject, b: &PyObject) -> (r: Result<
    PyObject,
    VmError,
>)
    ensures
        obj_res_view(r) == binop_spec(*op, a@, b@),
{
    match op {
        BinaryOperator::Add => a.add(b),
        BinaryOperator::Subtract => a.sub(b),
        BinaryOperator::Multiply => a.mul(b),
        _ => Err(
            VmError::TypeError {
                kind: TypeErrorKind::BinaryMismatch { op: *op, lhs: tag_of(a), rhs: tag_of(b) },
            },
        ),
    }
}

/// What rendering a value yields: decimal text for an integer, the content
/// for a string, an explicit failure for every other variant.
pub open spec fn render_val(v: Val) -> Result<Seq<char>, VmError> {
    match v {
        Val::IntV { n } => Ok(dec_int(n as int)),
        Val::StrV { s } => Ok(s),
        _ => Err(VmError::TypeError { kind: TypeErrorKind::NotRenderable { tag: spec_tag_of(v) } }),
    }
}

} // verus!
