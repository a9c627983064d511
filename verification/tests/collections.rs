//! Maps and sets of names, values and places.
use graphql_execution::name_map::NameMap;
use graphql_execution::name_map::name_before;
use graphql_execution::name_set::NameSet;
use graphql_execution::name_set::contains_name;
use graphql_execution::schema::Type;
use graphql_execution::value::Pos;
use graphql_execution::value::Value;
use graphql_execution::value::same_float;
use graphql_execution::value::same_value;

fn s(text: &str) -> String {
    text.to_string()
}

fn pos(line: usize, column: usize) -> Pos {
    Pos { line, column }
}

fn list(inner: Type) -> Type {
    Type::ListType(Box::new(inner))
}

fn object(entries: Vec<(&str, Value)>) -> Value {
    Value::Object(values(entries))
}

fn values(entries: Vec<(&str, Value)>) -> NameMap<Value> {
    let mut map: NameMap<Value> = NameMap::new();
    for (name, value) in entries {
        map.insert(s(name), value);
    }
    map
}

#[test]
fn entries_stand_in_the_order_of_their_names() {
    let mut map: NameMap<u64> = NameMap::new();
    map.insert(s("b"), 1);
    map.insert(s("a"), 2);
    map.insert(s("b"), 3);
    map.insert(s("ab"), 4);
    assert_eq!(map.len(), 3);
    assert_eq!(map.entry(1), &(s("ab"), 4));
    assert_eq!(map.get(&s("b")), Some(&3));
    assert_eq!(map.get(&s("c")), None);
    assert_eq!(map.entry(0), &(s("a"), 2));
    assert_eq!(map.entry(2), &(s("b"), 3));
}

#[test]
fn extending_a_map_prefers_what_is_added() {
    let mut map = values(vec![("a", Value::Int(1)), ("b", Value::Int(2))]);
    map.extend(values(vec![("b", Value::Int(3)), ("c", Value::Int(4))]));
    assert_eq!(
        map,
        values(vec![("a", Value::Int(1)), ("b", Value::Int(3)), ("c", Value::Int(4))])
    );
}

#[test]
fn map_without_entries_is_empty() {
    let mut map: NameMap<u64> = NameMap::new();
    assert!(map.is_empty());
    map.insert(s("a"), 1);
    assert!(!map.is_empty());
}

#[test]
fn names_are_ordered_by_their_characters() {
    assert!(name_before(&s("a"), &s("b")));
    assert!(name_before(&s("a"), &s("aa")));
    assert!(name_before(&s(""), &s("a")));
    assert!(name_before(&s("Z"), &s("a")));
    assert!(!name_before(&s("a"), &s("a")));
    assert!(!name_before(&s("b"), &s("aa")));
}

#[test]
fn set_holds_what_was_put_in() {
    let mut set = NameSet::new();
    assert!(!set.contains(&s("a")));
    set.insert(s("a"));
    let copy = set.clone();
    set.insert(s("b"));
    assert!(set.contains(&s("a")));
    assert!(set.contains(&s("b")));
    assert!(copy.contains(&s("a")));
    assert!(!copy.contains(&s("b")));
    assert!(contains_name(&vec![s("x"), s("y")], &s("y")));
    assert!(!contains_name(&vec![s("x"), s("y")], &s("z")));
}

#[test]
fn values_are_compared_by_what_they_hold() {
    let value = object(vec![
        ("list", Value::List(vec![Value::Int(1), Value::Null])),
        ("text", Value::String(s("x"))),
        ("flag", Value::Boolean(true)),
        ("bits", Value::Float(4607182418800017408)),
        ("kind", Value::Enum(s("RED"))),
        ("name", Value::Variable(s("v"))),
    ]);
    assert!(same_value(&value, &value.clone()));
    assert_eq!(value, value.clone());
    assert!(!same_value(&Value::Enum(s("x")), &Value::String(s("x"))));
    assert!(!same_value(&Value::List(vec![]), &Value::List(vec![Value::Null])));
    assert!(!same_value(
        &object(vec![("a", Value::Int(1))]),
        &object(vec![("b", Value::Int(1))])
    ));
    assert!(!same_value(
        &object(vec![("a", Value::Int(1))]),
        &object(vec![("a", Value::Int(2))])
    ));
}

#[test]
fn floats_are_compared_as_numbers() {
    let one = 1.0f64.to_bits();
    let nan = f64::NAN.to_bits();
    assert!(same_float(one, one));
    assert!(!same_float(one, (-1.0f64).to_bits()));
    assert!(same_float(0.0f64.to_bits(), (-0.0f64).to_bits()));
    assert!(!same_float(0.0f64.to_bits(), one));
    assert!(!same_float(nan, nan));
    assert!(!same_float((-f64::NAN).to_bits(), (-f64::NAN).to_bits()));
    assert!(same_float(f64::INFINITY.to_bits(), f64::INFINITY.to_bits()));
    assert!(!same_float(f64::INFINITY.to_bits(), f64::NEG_INFINITY.to_bits()));
    for a in vec![0.0, -0.0, 1.5, f64::MIN_POSITIVE, f64::MAX, f64::INFINITY, f64::NAN] {
        for b in vec![0.0, -0.0, 1.5, f64::MIN_POSITIVE, f64::MAX, f64::INFINITY, f64::NAN] {
            assert_eq!(same_float(f64::to_bits(a), f64::to_bits(b)), a == b);
        }
    }
    let wrapped = |bits: u64| object(vec![("list", Value::List(vec![Value::Float(bits)]))]);
    assert!(same_value(&wrapped(0.0f64.to_bits()), &wrapped((-0.0f64).to_bits())));
    assert!(!same_value(&wrapped(nan), &wrapped(nan)));
}

#[test]
fn places_are_ordered_by_line_and_column() {
    assert_eq!(pos(1, 9).min(pos(2, 1)), pos(1, 9));
    assert_eq!(pos(1, 9).max(pos(2, 1)), pos(2, 1));
    assert_eq!(pos(3, 2).min(pos(3, 1)), pos(3, 1));
    assert_eq!(pos(3, 2).max(pos(3, 1)), pos(3, 2));
}
