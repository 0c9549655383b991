use starlark::tuple::{
    alloc_tuple, unpack_pair, FrozenTuple, FrozenValue, RecordingTracer, Trace, Tuple, TupleGen, Value,
    ValueError, ValueKind,
};
use std::cmp::Ordering;

fn ints(xs: &[i64]) -> Vec<Value> {
    xs.iter().map(|x| Value::Int(*x)).collect()
}

fn tuple_of(xs: &[i64]) -> Tuple {
    TupleGen::new(ints(xs))
}

fn value_of(xs: &[i64]) -> Value {
    alloc_tuple(ints(xs))
}

#[test]
fn test_to_str() {
    assert_eq!("(1, 2, 3)", value_of(&[1, 2, 3]).to_str());
    let nested = alloc_tuple(vec![Value::Int(1), value_of(&[2, 3])]);
    assert_eq!("(1, (2, 3))", nested.to_str());
    assert_eq!("(1,)", value_of(&[1]).to_str());
}

#[test]
fn to_str_of_other_values() {
    assert_eq!("()", value_of(&[]).to_str());
    let t = alloc_tuple(vec![Value::NoneValue, Value::Bool(true), Value::Bool(false), Value::Int(-12)]);
    assert_eq!("(None, True, False, -12)", t.to_str());
    assert_eq!("(-9223372036854775808,)", value_of(&[i64::MIN]).to_str());
}

#[test]
fn to_json_is_an_array() {
    let t = alloc_tuple(vec![Value::NoneValue, Value::Bool(true), value_of(&[1])]);
    assert_eq!("[null, true, [1]]", t.to_json());
    assert_eq!("[1, 2]", tuple_of(&[1, 2]).to_json());
    assert_eq!("[]", tuple_of(&[]).to_json());
}

#[test]
fn tuple_built_twice_equals_itself_and_hashes_the_same() {
    for xs in [&[][..], &[1][..], &[1, 2, 3][..], &[-5, 0, 5][..]] {
        let a = tuple_of(xs);
        let b = value_of(xs);
        assert!(a.equals(&b));
        assert_eq!(a.get_hash(), b.get_hash());
        assert_eq!(a.get_hash(), tuple_of(xs).get_hash());
    }
}

#[test]
fn equality_and_hash_follow_order() {
    assert!(!tuple_of(&[1, 2]).equals(&value_of(&[2, 1])));
    assert!(!tuple_of(&[1, 2]).equals(&value_of(&[1, 2, 3])));
    assert!(!tuple_of(&[1]).equals(&Value::Int(1)));
    assert_ne!(tuple_of(&[1, 2]).get_hash(), tuple_of(&[2, 1]).get_hash());
}

#[test]
fn compare_is_lexicographic() {
    assert_eq!(Ok(Ordering::Less), tuple_of(&[1, 2]).compare(&value_of(&[1, 3])));
    assert_eq!(Ok(Ordering::Greater), tuple_of(&[2]).compare(&value_of(&[1, 9])));
    assert_eq!(Ok(Ordering::Less), tuple_of(&[1]).compare(&value_of(&[1, 0])));
    assert_eq!(Ok(Ordering::Equal), tuple_of(&[4, 5]).compare(&value_of(&[4, 5])));
}

#[test]
fn compare_with_other_kinds_fails() {
    assert_eq!(
        Err(ValueError::UnsupportedComparison(ValueKind::Tuple, ValueKind::Int)),
        tuple_of(&[1]).compare(&Value::Int(1))
    );
    let t = TupleGen::new(vec![Value::Int(1)]);
    assert_eq!(
        Err(ValueError::UnsupportedComparison(ValueKind::Int, ValueKind::Bool)),
        t.compare(&alloc_tuple(vec![Value::Bool(true)]))
    );
}

#[test]
fn at_counts_negative_indices_from_the_end() {
    let t = tuple_of(&[10, 20, 30]);
    assert!(t.at(0).unwrap().equals(&Value::Int(10)));
    assert!(t.at(-1).unwrap().equals(&Value::Int(30)));
    assert!(t.at(-3).unwrap().equals(&Value::Int(10)));
    assert_eq!(Err(ValueError::IndexOutOfRange(3, 3)), t.at(3).map(|_| ()));
    assert_eq!(Err(ValueError::IndexOutOfRange(-4, 3)), t.at(-4).map(|_| ()));
}

#[test]
fn is_in_finds_equal_elements() {
    let t = TupleGen::new(vec![Value::Int(1), value_of(&[2, 3])]);
    assert!(t.is_in(&Value::Int(1)));
    assert!(t.is_in(&value_of(&[2, 3])));
    assert!(!t.is_in(&Value::Int(2)));
    assert!(!tuple_of(&[]).is_in(&Value::NoneValue));
}

#[test]
fn concat_leaves_its_operands_alone() {
    let a = tuple_of(&[1, 2]);
    let b = value_of(&[3]);
    let c = a.add(&b).unwrap();
    assert!(c.equals(&value_of(&[1, 2, 3])));
    assert_eq!(2, a.len());
    assert_eq!(1, Tuple::from_value(&b).unwrap().len());
    assert_eq!(
        Err(ValueError::UnsupportedOperandType(ValueKind::Tuple, ValueKind::Bool)),
        a.add(&Value::Bool(true)).map(|_| ())
    );
}

#[test]
fn repeat_leaves_its_operand_alone() {
    let a = tuple_of(&[1, 2]);
    assert!(a.mul(&Value::Int(3)).unwrap().equals(&value_of(&[1, 2, 1, 2, 1, 2])));
    assert!(a.mul(&Value::Int(0)).unwrap().equals(&value_of(&[])));
    assert!(a.mul(&Value::Int(-2)).unwrap().equals(&value_of(&[])));
    assert_eq!(2, a.len());
    assert_eq!(
        Err(ValueError::IncorrectParameterType),
        a.mul(&Value::Bool(true)).map(|_| ())
    );
}

#[test]
fn truthiness_is_non_emptiness() {
    assert!(!tuple_of(&[]).to_bool());
    assert!(tuple_of(&[0]).to_bool());
}

#[test]
fn from_value_finds_tuples_only() {
    assert!(Tuple::from_value(&Value::Int(1)).is_none());
    let v = value_of(&[7, 8]);
    let t = Tuple::from_value(&v).unwrap();
    assert_eq!(2, t.len());
    assert_eq!(2, t.content().len());
    let items = t.iter();
    assert!(items[1].equals(&Value::Int(8)));
}

#[test]
fn unpack_pair_takes_two_elements() {
    let (a, b) = unpack_pair(&value_of(&[4, 5])).unwrap();
    assert!(a.equals(&Value::Int(4)));
    assert!(b.equals(&Value::Int(5)));
    assert!(unpack_pair(&value_of(&[4])).is_none());
    assert!(unpack_pair(&Value::Int(4)).is_none());
}

#[test]
fn frozen_tuple_reads_as_a_heap_tuple() {
    let frozen: FrozenTuple = TupleGen::new(vec![FrozenValue::new(Value::Int(1)), FrozenValue::new(value_of(&[2]))]);
    let thawed = frozen.to_tuple();
    assert!(thawed.equals(&alloc_tuple(vec![Value::Int(1), value_of(&[2])])));
    assert!(frozen.equals(&thawed.to_value()));
    assert_eq!(frozen.get_hash(), thawed.get_hash());
    assert_eq!("(1, (2,))", frozen.to_str());
}

#[test]
fn copy_is_equal() {
    let v = alloc_tuple(vec![Value::Int(1), value_of(&[2, 3])]);
    assert!(v.copy().equals(&v));
    assert_eq!(v.copy().get_hash(), v.get_hash());
}

fn sliced(start: Option<i64>, stop: Option<i64>, stride: Option<i64>) -> Value {
    tuple_of(&[0, 1, 2, 3, 4]).slice(start, stop, stride).unwrap()
}

#[test]
fn slice_follows_sequence_slicing() {
    assert!(sliced(Some(1), Some(4), None).equals(&value_of(&[1, 2, 3])));
    assert!(sliced(None, None, Some(-1)).equals(&value_of(&[4, 3, 2, 1, 0])));
    assert!(sliced(Some(-2), None, None).equals(&value_of(&[3, 4])));
    assert!(sliced(Some(4), Some(1), Some(-2)).equals(&value_of(&[4, 2])));
    assert!(sliced(Some(10), None, None).equals(&value_of(&[])));
    assert!(sliced(None, None, Some(2)).equals(&value_of(&[0, 2, 4])));
    assert!(sliced(Some(-100), Some(100), Some(3)).equals(&value_of(&[0, 3])));
    assert!(sliced(Some(3), Some(1), None).equals(&value_of(&[])));
}

#[test]
fn slice_with_zero_stride_fails() {
    assert_eq!(
        Err(ValueError::ZeroSliceStride),
        tuple_of(&[1]).slice(None, None, Some(0)).map(|_| ())
    );
}

#[test]
fn trace_hands_every_element_to_the_tracer() {
    let mut t = TupleGen::new(vec![Value::Int(1), value_of(&[2]), Value::Bool(true)]);
    let mut tracer = RecordingTracer { recorded: vec![Value::NoneValue] };
    t.trace(&mut tracer);
    assert_eq!(4, tracer.recorded.len());
    assert!(tracer.recorded[0].equals(&Value::NoneValue));
    assert!(tracer.recorded[1].equals(&Value::Int(1)));
    assert!(tracer.recorded[2].equals(&value_of(&[2])));
    assert!(tracer.recorded[3].equals(&Value::Bool(true)));
    assert_eq!(3, t.len());
}
