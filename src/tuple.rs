//! The tuple: an immutable sequence value, over mutable-heap values or over
//! frozen ones.
use vstd::prelude::*;
use vstd::string::*;
use vstd::std_specs::hash::DefaultHasherAdditionalSpecFns;
use std::cmp::Ordering;
use std::collections::hash_map::DefaultHasher;
use std::hash::Hasher;
use crate::text::{decimal, u64_to_string};

verus! {

/// A value of the language, reduced to the kinds a tuple needs.
pub enum Value {
    NoneValue,
    Bool(bool),
    Int(i64),
    Tuple(Box<Tuple>),
}

/// The kind of a value, for diagnostics.
#[derive(Clone, Copy, Debug, PartialEq, Eq, Structural)]
pub enum ValueKind {
    NoneType,
    Bool,
    Int,
    Tuple,
}

/// Failures of operations on values.
#[derive(Clone, Copy, Debug, PartialEq, Eq, Structural)]
pub enum ValueError {
    /// The index, and the length it was applied to.
    IndexOutOfRange(i64, usize),
    /// A comparison between values of these kinds.
    UnsupportedComparison(ValueKind, ValueKind),
    /// An operation between operands of these kinds.
    UnsupportedOperandType(ValueKind, ValueKind),
    IncorrectParameterType,
    /// A slice whose stride is zero.
    ZeroSliceStride,
}

/// A tuple: exactly its elements, in order, fixed once built.
pub struct TupleGen<V> {
    content: Vec<V>,
}

/// A tuple on the mutable heap.
pub type Tuple = TupleGen<Value>;

/// A value that is frozen: shared, immutable, and never traced.
pub struct FrozenValue {
    value: Value,
}

/// A tuple of frozen values.
pub type FrozenTuple = TupleGen<FrozenValue>;

/// The mathematical form of a value.
pub enum ValueModel {
    NoneValue,
    Bool(bool),
    Int(int),
    Tuple(Seq<ValueModel>),
}

impl<V> View for TupleGen<V> {
    type V = Seq<V>;

    closed spec fn view(&self) -> Seq<V> {
        self.content@
    }
}

impl Value {
    /// The mathematical form of the value.
    pub closed spec fn model(self) -> ValueModel
        decreases self,
    {
        match self {
            Value::NoneValue => ValueModel::NoneValue,
            Value::Bool(b) => ValueModel::Bool(b),
            Value::Int(i) => ValueModel::Int(i as int),
            Value::Tuple(t) => ValueModel::Tuple(
                Seq::new(
                    t.content@.len(),
                    |i: int|
                        if 0 <= i < t.content@.len() {
                            t.content@[i].model()
                        } else {
                            ValueModel::NoneValue
                        },
                ),
            ),
        }
    }

    pub open spec fn spec_kind(self) -> ValueKind {
        match self {
            Value::NoneValue => ValueKind::NoneType,
            Value::Bool(_) => ValueKind::Bool,
            Value::Int(_) => ValueKind::Int,
            Value::Tuple(_) => ValueKind::Tuple,
        }
    }

    /// The kind of the value.
    pub fn kind(&self) -> (r: ValueKind)
        ensures
            r == self.spec_kind(),
    {
        match self {
            Value::NoneValue => ValueKind::NoneType,
            Value::Bool(_) => ValueKind::Bool,
            Value::Int(_) => ValueKind::Int,
            Value::Tuple(_) => ValueKind::Tuple,
        }
    }
}

/// The models of a sequence of values.
pub open spec fn models(s: Seq<Value>) -> Seq<ValueModel> {
    Seq::new(s.len(), |i: int| s[i].model())
}

proof fn lemma_models_push(s: Seq<Value>, v: Value)
    ensures
        models(s.push(v)) == models(s).push(v.model()),
{
    assert(models(s.push(v)) =~= models(s).push(v.model()));
}

/// What a value of each kind models to.
pub broadcast proof fn lemma_value_model(v: Value)
    ensures
        #[trigger] v.model() == match v {
            Value::NoneValue => ValueModel::NoneValue,
            Value::Bool(b) => ValueModel::Bool(b),
            Value::Int(i) => ValueModel::Int(i as int),
            Value::Tuple(t) => ValueModel::Tuple(models(t@)),
        },
        model_kind(v.model()) == v.spec_kind(),
{
    if let Value::Tuple(t) = v {
        assert(v.model()->Tuple_0 =~= models(t@));
    }
}

proof fn lemma_tuple_model(t: Tuple)
    ensures
        Value::Tuple(Box::new(t)).model() == ValueModel::Tuple(models(t@)),
{
    assert(Value::Tuple(Box::new(t)).model()->Tuple_0 =~= models(t@));
}

// ---------------------------------------------------------------------------
// Meanings
// ---------------------------------------------------------------------------

pub open spec fn int_cmp(a: int, b: int) -> Ordering {
    if a < b {
        Ordering::Less
    } else if a > b {
        Ordering::Greater
    } else {
        Ordering::Equal
    }
}

/// The kind of a value, read from its model.
pub open spec fn model_kind(m: ValueModel) -> ValueKind {
    match m {
        ValueModel::NoneValue => ValueKind::NoneType,
        ValueModel::Bool(_) => ValueKind::Bool,
        ValueModel::Int(_) => ValueKind::Int,
        ValueModel::Tuple(_) => ValueKind::Tuple,
    }
}

/// How `a` orders against `b`: integers and booleans among their own kind,
/// tuples lexicographically; any other pair is an unsupported comparison of
/// the two kinds.
pub open spec fn cmp_model(a: ValueModel, b: ValueModel) -> Result<Ordering, ValueError>
    decreases a, 0int,
{
    match (a, b) {
        (ValueModel::Int(x), ValueModel::Int(y)) => Ok(int_cmp(x, y)),
        (ValueModel::Bool(x), ValueModel::Bool(y)) => Ok(
            int_cmp(
                if x {
                    1
                } else {
                    0
                },
                if y {
                    1
                } else {
                    0
                },
            ),
        ),
        (ValueModel::Tuple(xs), ValueModel::Tuple(ys)) => lex_cmp(xs, ys, 0),
        _ => Err(ValueError::UnsupportedComparison(model_kind(a), model_kind(b))),
    }
}

/// How `xs[i..]` orders against `ys[i..]`: the first pair whose comparison
/// is not `Equal` decides, its error included; else the lengths.
pub open spec fn lex_cmp(xs: Seq<ValueModel>, ys: Seq<ValueModel>, i: int) -> Result<
    Ordering,
    ValueError,
>
    decreases xs, xs.len() - i,
{
    if i < 0 || i >= xs.len() || i >= ys.len() {
        Ok(int_cmp(xs.len() as int, ys.len() as int))
    } else {
        match cmp_model(xs[i], ys[i]) {
            Ok(Ordering::Equal) => lex_cmp(xs, ys, i + 1),
            other => other,
        }
    }
}

/// The eight bytes of `w`, least significant first.
pub open spec fn le_bytes(w: u64) -> Seq<u8> {
    Seq::new(8, |k: int| (w >> (8 * k) as u64) as u8)
}

/// The hash of a value: integers and booleans hash to themselves, `None` to
/// zero, a tuple to the hasher's digest of its elements' hashes in order.
pub open spec fn hash_model(m: ValueModel) -> u64
    decreases m, 0int,
{
    match m {
        ValueModel::NoneValue => 0,
        ValueModel::Bool(b) => if b {
            1
        } else {
            0
        },
        ValueModel::Int(i) => if i >= 0 {
            i as u64
        } else {
            (i + 18446744073709551616) as u64
        },
        ValueModel::Tuple(s) => DefaultHasher::spec_finish(hash_inputs(s, s.len() as int)),
    }
}

/// What the hasher is fed for the first `n` elements: the bytes of each
/// element's hash, one write per element.
pub open spec fn hash_inputs(s: Seq<ValueModel>, n: int) -> Seq<Seq<u8>>
    decreases s, n,
{
    if n <= 0 || n > s.len() {
        Seq::empty()
    } else {
        hash_inputs(s, n - 1).push(le_bytes(hash_model(s[n - 1])))
    }
}

/// The decimal form of an integer.
pub open spec fn int_decimal(i: int) -> Seq<char> {
    if i < 0 {
        seq!['-'] + decimal((-i) as nat)
    } else {
        decimal(i as nat)
    }
}

/// The text of a value: as the language prints it, or as JSON.
pub open spec fn render(m: ValueModel, json: bool) -> Seq<char>
    decreases m, 0int,
{
    match m {
        ValueModel::NoneValue => if json {
            "null"@
        } else {
            "None"@
        },
        ValueModel::Bool(b) => if json {
            if b {
                "true"@
            } else {
                "false"@
            }
        } else {
            if b {
                "True"@
            } else {
                "False"@
            }
        },
        ValueModel::Int(i) => int_decimal(i),
        ValueModel::Tuple(s) => if json {
            seq!['['] + render_items(s, s.len() as int, json) + seq![']']
        } else if s.len() == 1 {
            seq!['('] + render_items(s, 1, json) + seq![',', ')']
        } else {
            seq!['('] + render_items(s, s.len() as int, json) + seq![')']
        },
    }
}

/// The texts of the first `n` elements, separated by `", "`.
pub open spec fn render_items(s: Seq<ValueModel>, n: int, json: bool) -> Seq<char>
    decreases s, n,
{
    if n <= 0 || n > s.len() {
        Seq::empty()
    } else if n == 1 {
        render(s[0], json)
    } else {
        render_items(s, n - 1, json) + seq![',', ' '] + render(s[n - 1], json)
    }
}

/// `s` repeated `n` times.
pub open spec fn repeat<T>(s: Seq<T>, n: int) -> Seq<T>
    decreases n,
{
    if n <= 0 {
        Seq::empty()
    } else {
        repeat(s, n - 1) + s
    }
}

// ---------------------------------------------------------------------------
// Operations on values
// ---------------------------------------------------------------------------

impl Value {
    /// A value equal to this one, allocated anew.
    pub fn copy(&self) -> (r: Value)
        ensures
            r.model() == self.model(),
        decreases self,
    {
        match self {
            Value::NoneValue => Value::NoneValue,
            Value::Bool(b) => Value::Bool(*b),
            Value::Int(i) => Value::Int(*i),
            Value::Tuple(t) => {
                let mut content: Vec<Value> = Vec::new();
                let mut k: usize = 0;
                while k < t.content.len()
                    invariant
                        *self == Value::Tuple(*t),
                        k <= t.content@.len(),
                        content@.len() == k,
                        forall|j: int| 0 <= j < k ==> (#[trigger] content@[j]).model() == t.content@[j].model(),
                    decreases t.content@.len() - k,
                {
                    assert(self->Tuple_0 == *t);
                    let c = t.content[k].copy();
                    content.push(c);
                    k += 1;
                }
                let r = Value::Tuple(Box::new(TupleGen { content }));
                assert(r.model()->Tuple_0 =~= self.model()->Tuple_0);
                r
            },
        }
    }

    /// Whether the two values are equal: of one kind, and for tuples of one
    /// length with equal elements.
    pub fn equals(&self, other: &Value) -> (r: bool)
        ensures
            r == (self.model() == other.model()),
            self.spec_kind() != other.spec_kind() ==> !r,
        decreases self,
    {
        match (self, other) {
            (Value::NoneValue, Value::NoneValue) => true,
            (Value::Bool(a), Value::Bool(b)) => *a == *b,
            (Value::Int(a), Value::Int(b)) => *a == *b,
            (Value::Tuple(a), Value::Tuple(b)) => {
                if a.content.len() != b.content.len() {
                    assert(self.model()->Tuple_0.len() != other.model()->Tuple_0.len());
                    return false;
                }
                let mut k: usize = 0;
                while k < a.content.len()
                    invariant
                        *self == Value::Tuple(*a),
                        *other == Value::Tuple(*b),
                        k <= a.content@.len() == b.content@.len(),
                        forall|j: int| 0 <= j < k ==> a.content@[j].model() == b.content@[j].model(),
                    decreases a.content@.len() - k,
                {
                    if !a.content[k].equals(&b.content[k]) {
                        assert(self.model()->Tuple_0[k as int] != other.model()->Tuple_0[k as int]);
                        return false;
                    }
                    k += 1;
                }
                assert(self.model()->Tuple_0 =~= other.model()->Tuple_0);
                true
            },
            _ => false,
        }
    }

    /// How this value orders against `other`; an error where the two cannot
    /// be compared.
    pub fn compare(&self, other: &Value) -> (r: Result<Ordering, ValueError>)
        ensures
            r == cmp_model(self.model(), other.model()),
            self.spec_kind() != other.spec_kind() || self.spec_kind() == ValueKind::NoneType ==> r
                == Err::<Ordering, ValueError>(
                ValueError::UnsupportedComparison(self.spec_kind(), other.spec_kind()),
            ),
        decreases self,
    {
        match (self, other) {
            (Value::Bool(a), Value::Bool(b)) => {
                if !*a && *b {
                    Ok(Ordering::Less)
                } else if *a && !*b {
                    Ok(Ordering::Greater)
                } else {
                    Ok(Ordering::Equal)
                }
            },
            (Value::Int(a), Value::Int(b)) => {
                if *a < *b {
                    Ok(Ordering::Less)
                } else if *a > *b {
                    Ok(Ordering::Greater)
                } else {
                    Ok(Ordering::Equal)
                }
            },
            (Value::Tuple(a), Value::Tuple(b)) => {
                assert(self.model()->Tuple_0 =~= models(a.content@));
                assert(other.model()->Tuple_0 =~= models(b.content@));
                let mut k: usize = 0;
                while k < a.content.len() && k < b.content.len()
                    invariant
                        *self == Value::Tuple(*a),
                        *other == Value::Tuple(*b),
                        self.model() == ValueModel::Tuple(models(a.content@)),
                        other.model() == ValueModel::Tuple(models(b.content@)),
                        k <= a.content@.len(),
                        k <= b.content@.len(),
                        lex_cmp(models(a.content@), models(b.content@), 0) == lex_cmp(
                            models(a.content@),
                            models(b.content@),
                            k as int,
                        ),
                    decreases a.content@.len() - k,
                {
                    let c = a.content[k].compare(&b.content[k]);
                    assert(models(a.content@)[k as int] == a.content@[k as int].model());
                    assert(models(b.content@)[k as int] == b.content@[k as int].model());
                    match c {
                        Ok(Ordering::Equal) => {},
                        _ => {
                            return c;
                        },
                    }
                    k += 1;
                }
                let la = a.content.len();
                let lb = b.content.len();
                if la < lb {
                    Ok(Ordering::Less)
                } else if la > lb {
                    Ok(Ordering::Greater)
                } else {
                    Ok(Ordering::Equal)
                }
            },
            _ => Err(ValueError::UnsupportedComparison(self.kind(), other.kind())),
        }
    }

    /// The hash of the value; equal values hash equal.
    pub fn get_hash(&self) -> (r: u64)
        ensures
            r == hash_model(self.model()),
        decreases self,
    {
        match self {
            Value::NoneValue => {
                assert(self.model() == ValueModel::NoneValue);
                0
            },
            Value::Bool(b) => {
                assert(self.model() == ValueModel::Bool(*b));
                if *b {
                    1
                } else {
                    0
                }
            },
            Value::Int(i) => {
                assert(self.model() == ValueModel::Int(*i as int));
                if *i >= 0 {
                    *i as u64
                } else {
                    (*i as i128 + 18446744073709551616) as u64
                }
            },
            Value::Tuple(t) => {
                assert(self.model()->Tuple_0 =~= models(t.content@));
                let mut hasher = DefaultHasher::new();
                let mut k: usize = 0;
                while k < t.content.len()
                    invariant
                        *self == Value::Tuple(*t),
                        self.model() == ValueModel::Tuple(models(t.content@)),
                        k <= t.content@.len(),
                        hasher@ == hash_inputs(models(t.content@), k as int),
                    decreases t.content@.len() - k,
                {
                    assert(self->Tuple_0 == *t);
                    let h = t.content[k].get_hash();
                    assert(models(t.content@)[k as int] == t.content@[k as int].model());
                    let bytes = u64_le_bytes(h);
                    hasher.write(bytes.as_slice());
                    k += 1;
                }
                let r = hasher.finish();
                r
            },
        }
    }

    /// Appends the text of the value, as the language prints it or as JSON.
    fn write_text(&self, out: &mut String, json: bool)
        ensures
            final(out)@ == old(out)@ + render(self.model(), json),
        decreases self,
    {
        proof {
            reveal_strlit("null");
            reveal_strlit("None");
            reveal_strlit("true");
            reveal_strlit("false");
            reveal_strlit("True");
            reveal_strlit("False");
            reveal_strlit("-");
            reveal_strlit(", ");
            reveal_strlit("(");
            reveal_strlit(")");
            reveal_strlit("[");
            reveal_strlit("]");
            reveal_strlit(",)");
        }
        match self {
            Value::NoneValue => {
                if json {
                    out.append("null");
                } else {
                    out.append("None");
                }
            },
            Value::Bool(b) => {
                if json {
                    if *b {
                        out.append("true");
                    } else {
                        out.append("false");
                    }
                } else {
                    if *b {
                        out.append("True");
                    } else {
                        out.append("False");
                    }
                }
            },
            Value::Int(i) => {
                if *i < 0 {
                    out.append("-");
                    let mag: u64 = if *i == i64::MIN {
                        9223372036854775808
                    } else {
                        (-*i) as u64
                    };
                    let d = u64_to_string(mag);
                    out.append(d.as_str());
                } else {
                    let d = u64_to_string(*i as u64);
                    out.append(d.as_str());
                }
            },
            Value::Tuple(t) => {
                assert(self.model()->Tuple_0 =~= models(t.content@));
                let ghost start = out@;
                if json {
                    out.append("[");
                } else {
                    out.append("(");
                }
                let mut k: usize = 0;
                while k < t.content.len()
                    invariant
                        *self == Value::Tuple(*t),
                        self.model() == ValueModel::Tuple(models(t.content@)),
                        k <= t.content@.len(),
                        out@ == start + (if json {
                            seq!['[']
                        } else {
                            seq!['(']
                        }) + render_items(models(t.content@), k as int, json),
                    decreases t.content@.len() - k,
                {
                    let ghost before = out@;
                    if k != 0 {
                        proof {
                            reveal_strlit(", ");
                        }
                        out.append(", ");
                    }
                    let ghost sep = out@;
                    assert(self->Tuple_0 == *t);
                    t.content[k].write_text(out, json);
                    assert(models(t.content@)[k as int] == t.content@[k as int].model());
                    proof {
                        let open = if json {
                            seq!['[']
                        } else {
                            seq!['(']
                        };
                        let m = models(t.content@);
                        if k == 0 {
                            assert(render_items(m, 1, json) == render(m[0], json));
                            assert(sep == before);
                            assert(render_items(m, 0, json) =~= Seq::<char>::empty());
                        } else {
                            assert(render_items(m, k + 1, json) == render_items(m, k as int, json)
                                + seq![',', ' '] + render(m[k as int], json));
                            assert(sep =~= before + seq![',', ' ']);
                        }
                    }
                    assert(out@ =~= start + (if json {
                        seq!['[']
                    } else {
                        seq!['(']
                    }) + render_items(models(t.content@), k + 1, json));
                    k += 1;
                }
                if json {
                    out.append("]");
                } else if t.content.len() == 1 {
                    out.append(",)");
                } else {
                    out.append(")");
                }
            },
        }
    }

    /// The value as the language prints it.
    pub fn to_str(&self) -> (r: String)
        ensures
            r@ == render(self.model(), false),
    {
        let mut out = String::new();
        self.write_text(&mut out, false);
        out
    }

    /// The value as JSON.
    pub fn to_json(&self) -> (r: String)
        ensures
            r@ == render(self.model(), true),
    {
        let mut out = String::new();
        self.write_text(&mut out, true);
        out
    }
}

/// The bytes of `w`, least significant first.
fn u64_le_bytes(w: u64) -> (r: Vec<u8>)
    ensures
        r@ == le_bytes(w),
{
    let mut r: Vec<u8> = Vec::new();
    let mut k: u64 = 0;
    while k < 8
        invariant
            k <= 8,
            r@ == Seq::new(k as nat, |j: int| (w >> (8 * j) as u64) as u8),
        decreases 8 - k,
    {
        r.push((w >> (8 * k)) as u8);
        assert(r@ =~= Seq::new((k + 1) as nat, |j: int| (w >> (8 * j) as u64) as u8));
        k += 1;
    }
    r
}

// ---------------------------------------------------------------------------
// Tuples over either kind of value
// ---------------------------------------------------------------------------

/// What a tuple can hold: something that reads as a value.
pub trait ValueLike: Sized {
    /// The mathematical form of the value read.
    spec fn value_model(&self) -> ValueModel;

    /// The value read.
    fn as_value(&self) -> (r: &Value)
        ensures
            r.model() == self.value_model(),
    ;
}

impl ValueLike for Value {
    open spec fn value_model(&self) -> ValueModel {
        self.model()
    }

    fn as_value(&self) -> (r: &Value) {
        self
    }
}

impl ValueLike for FrozenValue {
    open spec fn value_model(&self) -> ValueModel {
        self.spec_value().model()
    }

    fn as_value(&self) -> (r: &Value) {
        &self.value
    }
}

impl FrozenValue {
    pub closed spec fn spec_value(&self) -> Value {
        self.value
    }

    /// Freezes a value.
    pub fn new(value: Value) -> (r: FrozenValue)
        ensures
            r.spec_value() == value,
    {
        FrozenValue { value }
    }
}

/// The models of the elements of a tuple.
pub open spec fn elem_models<V: ValueLike>(s: Seq<V>) -> Seq<ValueModel> {
    Seq::new(s.len(), |i: int| s[i].value_model())
}

/// The element an index designates: a negative one counts from the end.
pub open spec fn normalize_index(index: int, len: int) -> int {
    if index < 0 {
        index + len
    } else {
        index
    }
}

/// The indices a slice visits from `start`, stepping by `stride`, before
/// reaching `stop`.
pub open spec fn slice_indices(start: int, stop: int, stride: int) -> Seq<int>
    decreases (if stride > 0 && start < stop {
        stop - start
    } else if stride < 0 && start > stop {
        start - stop
    } else {
        0
    }),
{
    if (stride > 0 && start < stop) || (stride < 0 && start > stop) {
        seq![start] + slice_indices(start + stride, stop, stride)
    } else {
        Seq::empty()
    }
}

/// `x` brought into `[lo, hi]`.
pub open spec fn clamp(x: int, lo: int, hi: int) -> int {
    if x < lo {
        lo
    } else if x > hi {
        hi
    } else {
        x
    }
}

/// Where a slice of a sequence of `len` elements starts and stops: omitted
/// bounds run over the whole sequence in the stride's direction, negative
/// ones count from the end, and both are kept within the sequence.
pub open spec fn slice_bounds(len: int, start: Option<i64>, stop: Option<i64>, stride: int) -> (int, int) {
    if stride > 0 {
        (
            match start {
                None => 0,
                Some(x) => clamp(normalize_index(x as int, len), 0, len),
            },
            match stop {
                None => len,
                Some(x) => clamp(normalize_index(x as int, len), 0, len),
            },
        )
    } else {
        (
            match start {
                None => len - 1,
                Some(x) => clamp(normalize_index(x as int, len), -1, len - 1),
            },
            match stop {
                None => -1,
                Some(x) => clamp(normalize_index(x as int, len), -1, len - 1),
            },
        )
    }
}

/// The elements a slice takes.
pub open spec fn slice_spec(
    s: Seq<ValueModel>,
    start: Option<i64>,
    stop: Option<i64>,
    stride: Option<i64>,
) -> Seq<ValueModel> {
    let st: int = match stride {
        None => 1,
        Some(x) => x as int,
    };
    let (b, e) = slice_bounds(s.len() as int, start, stop, st);
    slice_indices(b, e, st).map_values(|k: int| s[k])
}

fn clamp_exec(x: i128, lo: i128, hi: i128) -> (r: i128)
    requires
        lo <= hi,
    ensures
        r == clamp(x as int, lo as int, hi as int),
{
    if x < lo {
        lo
    } else if x > hi {
        hi
    } else {
        x
    }
}

/// Builds a tuple value holding exactly `content`.
pub fn alloc_tuple(content: Vec<Value>) -> (r: Value)
    ensures
        r.model() == ValueModel::Tuple(models(content@)),
        r.spec_kind() == ValueKind::Tuple,
{
    let r = Value::Tuple(Box::new(TupleGen { content }));
    proof {
        lemma_tuple_model(TupleGen { content });
    }
    r
}

impl Tuple {
    /// The tuple inside `value`, if it is one.
    pub fn from_value(value: &Value) -> (r: Option<&Tuple>)
        ensures
            value.spec_kind() == ValueKind::Tuple <==> r is Some,
            r matches Some(t) ==> value.model() == ValueModel::Tuple(elem_models(t@)),
    {
        match value {
            Value::Tuple(t) => {
                assert(value.model()->Tuple_0 =~= elem_models(t@));
                Some(t)
            },
            _ => None,
        }
    }
}

impl FrozenTuple {
    /// The same tuple on the mutable heap: every frozen value reads as a
    /// value of the heap, so the elements carry over unchanged.
    pub fn to_tuple(&self) -> (r: Tuple)
        ensures
            elem_models(r@) == elem_models(self@),
    {
        TupleGen { content: self.iter() }
    }
}

impl<V: ValueLike> TupleGen<V> {
    /// A tuple of exactly these elements.
    pub fn new(content: Vec<V>) -> (r: TupleGen<V>)
        ensures
            r@ == content@,
    {
        TupleGen { content }
    }

    /// The tuple as a value model.
    pub open spec fn model(&self) -> ValueModel {
        ValueModel::Tuple(elem_models(self@))
    }

    /// The number of elements.
    pub fn len(&self) -> (r: usize)
        ensures
            r == self@.len(),
    {
        self.content.len()
    }

    /// The elements.
    pub fn content(&self) -> (r: &[V])
        ensures
            r@ == self@,
    {
        self.content.as_slice()
    }

    /// The elements as values, in order.
    pub fn iter(&self) -> (r: Vec<Value>)
        ensures
            models(r@) == elem_models(self@),
    {
        let mut r: Vec<Value> = Vec::new();
        let mut k: usize = 0;
        while k < self.content.len()
            invariant
                k <= self@.len(),
                r@.len() == k,
                forall|j: int| 0 <= j < k ==> (#[trigger] r@[j]).model() == self@[j].value_model(),
            decreases self@.len() - k,
        {
            r.push(self.content[k].as_value().copy());
            k += 1;
        }
        assert(models(r@) =~= elem_models(self@));
        r
    }

    /// The tuple as a value of the heap.
    pub fn to_value(&self) -> (r: Value)
        ensures
            r.model() == self.model(),
            r.spec_kind() == ValueKind::Tuple,
    {
        alloc_tuple(self.iter())
    }

    /// A tuple is true unless it is empty.
    pub fn to_bool(&self) -> (r: bool)
        ensures
            r == (self@.len() != 0),
    {
        self.content.len() != 0
    }

    /// The tuple as the language prints it.
    pub fn to_str(&self) -> (r: String)
        ensures
            r@ == render(self.model(), false),
    {
        self.to_value().to_str()
    }

    /// The tuple as a JSON array.
    pub fn to_json(&self) -> (r: String)
        ensures
            r@ == render(self.model(), true),
    {
        self.to_value().to_json()
    }

    /// The hash of the tuple: the hasher's digest of the elements' hashes,
    /// in order.
    pub fn get_hash(&self) -> (r: u64)
        ensures
            r == hash_model(self.model()),
    {
        let mut hasher = DefaultHasher::new();
        let mut k: usize = 0;
        while k < self.content.len()
            invariant
                k <= self@.len(),
                hasher@ == hash_inputs(elem_models(self@), k as int),
            decreases self@.len() - k,
        {
            let h = self.content[k].as_value().get_hash();
            let bytes = u64_le_bytes(h);
            hasher.write(bytes.as_slice());
            k += 1;
        }
        hasher.finish()
    }

    /// Whether `other` is a tuple with equal elements; the first unequal
    /// pair decides.
    pub fn equals(&self, other: &Value) -> (r: bool)
        ensures
            r == (self.model() == other.model()),
            other.spec_kind() != ValueKind::Tuple ==> !r,
    {
        match Tuple::from_value(other) {
            None => false,
            Some(o) => {
                if self.content.len() != o.content.len() {
                    assert(elem_models(self@).len() != elem_models(o@).len());
                    return false;
                }
                let mut k: usize = 0;
                while k < self.content.len()
                    invariant
                        k <= self@.len() == o@.len(),
                        other.model() == ValueModel::Tuple(elem_models(o@)),
                        forall|j: int| 0 <= j < k ==> self@[j].value_model() == o@[j].value_model(),
                    decreases self@.len() - k,
                {
                    if !self.content[k].as_value().equals(&o.content[k]) {
                        assert(elem_models(self@)[k as int] != elem_models(o@)[k as int]);
                        return false;
                    }
                    k += 1;
                }
                assert(elem_models(self@) =~= elem_models(o@));
                true
            },
        }
    }

    /// How the tuple orders against `other`, lexicographically; an error
    /// where `other` is not a tuple or two elements cannot be compared.
    pub fn compare(&self, other: &Value) -> (r: Result<Ordering, ValueError>)
        ensures
            r == cmp_model(self.model(), other.model()),
            other.spec_kind() != ValueKind::Tuple ==> r == Err::<Ordering, ValueError>(
                ValueError::UnsupportedComparison(ValueKind::Tuple, other.spec_kind()),
            ),
    {
        match Tuple::from_value(other) {
            None => {
                proof {
                    match other.model() {
                        ValueModel::Tuple(_) => {
                            assert(other.spec_kind() == ValueKind::Tuple);
                        },
                        _ => {},
                    }
                }
                Err(ValueError::UnsupportedComparison(ValueKind::Tuple, other.kind()))
            },
            Some(o) => {
                let ghost xs = elem_models(self@);
                let ghost ys = elem_models(o@);
                let mut k: usize = 0;
                while k < self.content.len() && k < o.content.len()
                    invariant
                        k <= self@.len(),
                        k <= o@.len(),
                        xs == elem_models(self@),
                        ys == elem_models(o@),
                        other.spec_kind() == ValueKind::Tuple,
                        other.model() == ValueModel::Tuple(ys),
                        lex_cmp(xs, ys, 0) == lex_cmp(xs, ys, k as int),
                    decreases self@.len() - k,
                {
                    let c = self.content[k].as_value().compare(&o.content[k]);
                    assert(xs[k as int] == self@[k as int].value_model());
                    assert(ys[k as int] == o@[k as int].value_model());
                    match c {
                        Ok(Ordering::Equal) => {},
                        _ => {
                            return c;
                        },
                    }
                    k += 1;
                }
                let la = self.content.len();
                let lb = o.content.len();
                if la < lb {
                    Ok(Ordering::Less)
                } else if la > lb {
                    Ok(Ordering::Greater)
                } else {
                    Ok(Ordering::Equal)
                }
            },
        }
    }

    /// The element at `index`, where a negative index counts from the end;
    /// an error where it designates no element.
    pub fn at(&self, index: i64) -> (r: Result<Value, ValueError>)
        ensures
            ({
                let i = normalize_index(index as int, self@.len() as int);
                if 0 <= i < self@.len() {
                    r is Ok && r->Ok_0.model() == self@[i].value_model()
                } else {
                    r == Err::<Value, ValueError>(ValueError::IndexOutOfRange(index, self@.len() as usize))
                }
            }),
    {
        let len = self.content.len();
        let i: i128 = if index < 0 {
            index as i128 + len as i128
        } else {
            index as i128
        };
        if i < 0 || i >= len as i128 {
            return Err(ValueError::IndexOutOfRange(index, len));
        }
        Ok(self.content[i as usize].as_value().copy())
    }

    /// Whether some element equals `other`.
    pub fn is_in(&self, other: &Value) -> (r: bool)
        ensures
            r == elem_models(self@).contains(other.model()),
    {
        let mut k: usize = 0;
        while k < self.content.len()
            invariant
                k <= self@.len(),
                forall|j: int| 0 <= j < k ==> self@[j].value_model() != other.model(),
            decreases self@.len() - k,
        {
            if self.content[k].as_value().equals(other) {
                assert(elem_models(self@)[k as int] == other.model());
                return true;
            }
            k += 1;
        }
        false
    }

    /// A new tuple of this tuple's elements followed by those of `other`; an
    /// error where `other` is not a tuple.
    pub fn add(&self, other: &Value) -> (r: Result<Value, ValueError>)
        ensures
            match other.model() {
                ValueModel::Tuple(ys) => r is Ok && r->Ok_0.model() == ValueModel::Tuple(
                    elem_models(self@) + ys,
                ),
                _ => r == Err::<Value, ValueError>(
                    ValueError::UnsupportedOperandType(ValueKind::Tuple, other.spec_kind()),
                ),
            },
            other.spec_kind() == ValueKind::Tuple ==> r is Ok && r->Ok_0.spec_kind()
                == ValueKind::Tuple,
            other.spec_kind() != ValueKind::Tuple ==> r == Err::<Value, ValueError>(
                ValueError::UnsupportedOperandType(ValueKind::Tuple, other.spec_kind()),
            ),
    {
        match Tuple::from_value(other) {
            None => {
                proof {
                    match other.model() {
                        ValueModel::Tuple(_) => {
                            assert(other.spec_kind() == ValueKind::Tuple);
                        },
                        _ => {},
                    }
                }
                Err(ValueError::UnsupportedOperandType(ValueKind::Tuple, other.kind()))
            },
            Some(o) => {
                let mut result = self.iter();
                let tail = o.iter();
                let mut k: usize = 0;
                let ghost head = models(result@);
                while k < tail.len()
                    invariant
                        k <= tail@.len(),
                        head == elem_models(self@),
                        models(result@) == head + models(tail@).subrange(0, k as int),
                    decreases tail@.len() - k,
                {
                    let v = tail[k].copy();
                    assert(models(tail@)[k as int] == tail@[k as int].model());
                    proof {
                        lemma_models_push(result@, v);
                    }
                    result.push(v);
                    assert(models(result@) =~= head + models(tail@).subrange(0, k + 1));
                    k += 1;
                }
                assert(models(tail@).subrange(0, tail@.len() as int) =~= models(tail@));
                Ok(alloc_tuple(result))
            },
        }
    }

    /// A new tuple of this tuple's elements repeated `other` times, none
    /// where `other` is not positive; an error where `other` is not an
    /// integer.
    pub fn mul(&self, other: &Value) -> (r: Result<Value, ValueError>)
        requires
            other matches Value::Int(n) ==> n * self@.len() <= usize::MAX,
        ensures
            match other {
                Value::Int(n) => r is Ok && r->Ok_0.model() == ValueModel::Tuple(
                    repeat(elem_models(self@), n as int),
                ),
                _ => r == Err::<Value, ValueError>(ValueError::IncorrectParameterType),
            },
            r is Ok ==> r->Ok_0.spec_kind() == ValueKind::Tuple,
    {
        match other {
            Value::Int(n) => {
                let n = *n;
                let mut result: Vec<Value> = Vec::new();
                let mut i: i64 = 0;
                let ghost s = elem_models(self@);
                while i < n
                    invariant
                        0 <= i,
                        n > 0 ==> i <= n,
                        n <= 0 ==> i == 0,
                        s == elem_models(self@),
                        n * self@.len() <= usize::MAX,
                        models(result@) == repeat(s, i as int),
                        result@.len() == i * self@.len(),
                    decreases n - i,
                {
                    let part = self.iter();
                    let mut k: usize = 0;
                    let ghost before = models(result@);
                    assert(i * self@.len() + self@.len() == (i + 1) * self@.len()) by (nonlinear_arith);
                    assert((i + 1) * self@.len() <= n * self@.len()) by (nonlinear_arith)
                        requires
                            i + 1 <= n,
                    ;
                    while k < part.len()
                        invariant
                            k <= part@.len() == self@.len(),
                            models(part@) == s,
                            models(result@) == before + s.subrange(0, k as int),
                            result@.len() == i * self@.len() + k,
                            (i + 1) * self@.len() <= usize::MAX,
                        decreases part@.len() - k,
                    {
                        let v = part[k].copy();
                        assert(models(part@)[k as int] == part@[k as int].model());
                        proof {
                            lemma_models_push(result@, v);
                        }
                        result.push(v);
                        assert(models(result@) =~= before + s.subrange(0, k + 1));
                        k += 1;
                    }
                    assert(s.subrange(0, s.len() as int) =~= s);
                    i += 1;
                }
                proof {
                    if n <= 0 {
                        assert(i == 0);
                    }
                }
                Ok(alloc_tuple(result))
            },
            _ => Err(ValueError::IncorrectParameterType),
        }
    }
}

impl<V: ValueLike> TupleGen<V> {
    /// A new tuple of the elements from `start` towards `stop` by `stride`,
    /// as sequences slice; an error where the stride is zero.
    pub fn slice(&self, start: Option<i64>, stop: Option<i64>, stride: Option<i64>) -> (r: Result<
        Value,
        ValueError,
    >)
        ensures
            stride == Some(0i64) ==> r == Err::<Value, ValueError>(ValueError::ZeroSliceStride),
            stride != Some(0i64) ==> r is Ok && r->Ok_0.model() == ValueModel::Tuple(
                slice_spec(elem_models(self@), start, stop, stride),
            ),
            r is Ok ==> r->Ok_0.spec_kind() == ValueKind::Tuple,
    {
        let st: i128 = match stride {
            None => 1,
            Some(x) => x as i128,
        };
        if st == 0 {
            return Err(ValueError::ZeroSliceStride);
        }
        let len = self.content.len() as i128;
        let (b, e): (i128, i128) = if st > 0 {
            (
                match start {
                    None => 0,
                    Some(x) => clamp_exec(if x < 0 { x as i128 + len } else { x as i128 }, 0, len),
                },
                match stop {
                    None => len,
                    Some(x) => clamp_exec(if x < 0 { x as i128 + len } else { x as i128 }, 0, len),
                },
            )
        } else {
            (
                match start {
                    None => len - 1,
                    Some(x) => clamp_exec(
                        if x < 0 { x as i128 + len } else { x as i128 },
                        -1,
                        len - 1,
                    ),
                },
                match stop {
                    None => -1,
                    Some(x) => clamp_exec(
                        if x < 0 { x as i128 + len } else { x as i128 },
                        -1,
                        len - 1,
                    ),
                },
            )
        };
        let ghost s = elem_models(self@);
        let ghost f = |k: int| s[k];
        assert((b as int, e as int) == slice_bounds(len as int, start, stop, st as int));
        let mut result: Vec<Value> = Vec::new();
        let mut i: i128 = b;
        while (st > 0 && i < e) || (st < 0 && i > e)
            invariant
                s == elem_models(self@),
                f == (|k: int| s[k]),
                len == self@.len(),
                0 <= len <= usize::MAX,
                usize::MAX <= u64::MAX,
                st != 0,
                -(u64::MAX as int) <= st <= u64::MAX,
                st > 0 ==> 0 <= i && e <= len,
                st < 0 ==> i <= len - 1 && -1 <= e,
                -(u64::MAX as int) * 2 <= i <= (u64::MAX as int) * 2,
                models(result@) + slice_indices(i as int, e as int, st as int).map_values(f)
                    == slice_indices(b as int, e as int, st as int).map_values(f),
            decreases (if st > 0 && i < e {
                e - i
            } else if st < 0 && i > e {
                i - e
            } else {
                0
            }),
        {
            assert(0 <= i < len);
            let idx = i as usize;
            assert(idx as int == i as int);
            let v = self.content[idx].as_value().copy();
            assert(v.model() == self@[idx as int].value_model());
            proof {
                lemma_models_push(result@, v);
                assert(s[i as int] == v.model());
                let rest = slice_indices(i + st, e as int, st as int);
                assert(slice_indices(i as int, e as int, st as int) == seq![i as int] + rest);
                assert((seq![i as int] + rest).map_values(f) =~= seq![s[i as int]] + rest.map_values(f));
                assert(models(result@).push(v.model()) + rest.map_values(f) =~= models(result@) + (
                seq![s[i as int]] + rest.map_values(f)));
            }
            result.push(v);
            i = i + st;
        }
        assert(slice_indices(i as int, e as int, st as int) =~= Seq::<int>::empty());
        assert(models(result@) =~= models(result@) + Seq::<int>::empty().map_values(f));
        Ok(alloc_tuple(result))
    }
}

/// A collector pass: it is handed each value a live object refers to, and
/// may move it.
pub trait Tracer {
    /// The values handed to the pass so far, in order.
    spec fn seen(&self) -> Seq<ValueModel>;

    /// Takes in one value, which it may replace.
    fn trace(&mut self, value: &mut Value)
        ensures
            final(self).seen() == old(self).seen().push(old(value).model()),
    ;
}

/// A pass that keeps a copy of each value it is handed, and leaves the
/// values where they are.
pub struct RecordingTracer {
    pub recorded: Vec<Value>,
}

impl Tracer for RecordingTracer {
    open spec fn seen(&self) -> Seq<ValueModel> {
        models(self.recorded@)
    }

    fn trace(&mut self, value: &mut Value) {
        let v = value.copy();
        proof {
            lemma_models_push(self.recorded@, v);
        }
        self.recorded.push(v);
    }
}

/// What refers to values the collector must see. Frozen tuples do not have
/// it: their elements live outside any collected heap.
pub trait Trace {
    fn trace<T: Tracer>(&mut self, tracer: &mut T);
}

impl Trace for Tuple {
    /// Hands every element, in order, to the tracer, and keeps what it
    /// hands back in its place.
    fn trace<T: Tracer>(&mut self, tracer: &mut T)
        ensures
            final(self)@.len() == old(self)@.len(),
            final(tracer).seen() == old(tracer).seen() + elem_models(old(self)@),
    {
        let mut k: usize = 0;
        while k < self.content.len()
            invariant
                k <= self@.len(),
                self@.len() == old(self)@.len(),
                forall|j: int| k <= j < self@.len() ==> self@[j] == old(self)@[j],
                tracer.seen() == old(tracer).seen() + elem_models(old(self)@).subrange(0, k as int),
            decreases self@.len() - k,
        {
            let mut v = self.content[k].copy();
            tracer.trace(&mut v);
            self.content.set(k, v);
            assert(elem_models(old(self)@).subrange(0, k + 1) =~= elem_models(old(self)@).subrange(
                0,
                k as int,
            ).push(old(self)@[k as int].model()));
            k += 1;
        }
        assert(elem_models(old(self)@).subrange(0, k as int) =~= elem_models(old(self)@));
    }
}

/// The two elements of a pair, if `value` is a tuple of two.
pub fn unpack_pair(value: &Value) -> (r: Option<(Value, Value)>)
    ensures
        match value.model() {
            ValueModel::Tuple(s) => if s.len() == 2 {
                r matches Some((a, b)) && a.model() == s[0] && b.model() == s[1]
            } else {
                r is None
            },
            _ => r is None,
        },
{
    match Tuple::from_value(value) {
        None => {
            proof {
                match value.model() {
                    ValueModel::Tuple(_) => {
                        assert(value.spec_kind() == ValueKind::Tuple);
                    },
                    _ => {},
                }
            }
            None
        },
        Some(t) => {
            if t.content.len() != 2 {
                return None;
            }
            Some((t.content[0].copy(), t.content[1].copy()))
        },
    }
}

/// Two tuples built from equal element lists are equal, and equal values
/// hash equal; so a tuple built twice from one list equals itself and hashes
/// the same both times.
pub proof fn lemma_equal_tuples_hash_equal<V: ValueLike>(a: TupleGen<V>, b: TupleGen<V>)
    ensures
        elem_models(a@) == elem_models(b@) ==> a.model() == b.model(),
        a.model() == b.model() ==> hash_model(a.model()) == hash_model(b.model()),
        forall|x: ValueModel, y: ValueModel| x == y ==> hash_model(x) == hash_model(y),
{
}

} // verus!
