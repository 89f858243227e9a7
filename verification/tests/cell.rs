use tbx::cell::{Cell, Xt};

#[test]
fn test_as_int() {
    assert_eq!(Cell::Int(7).as_int(), Some(7));
    assert_eq!(Cell::Bool(true).as_int(), None);
}

#[test]
fn test_as_bool() {
    assert_eq!(Cell::Bool(true).as_bool(), Some(true));
    assert_eq!(Cell::Bool(false).as_bool(), Some(false));
    assert_eq!(Cell::Int(1).as_bool(), None);
}

#[test]
fn test_as_dict_addr() {
    assert_eq!(Cell::DictAddr(100).as_dict_addr(), Some(100));
    assert_eq!(Cell::Int(100).as_dict_addr(), None);
    assert_eq!(Cell::StackAddr(100).as_dict_addr(), None);
}

#[test]
fn test_as_stack_addr() {
    assert_eq!(Cell::StackAddr(8).as_stack_addr(), Some(8));
    assert_eq!(Cell::Int(8).as_stack_addr(), None);
    assert_eq!(Cell::DictAddr(8).as_stack_addr(), None);
}

#[test]
fn test_as_xt() {
    assert_eq!(Cell::Xt(Xt(3)).as_xt(), Some(Xt(3)));
    assert_eq!(Cell::Int(3).as_xt(), None);
}

#[test]
fn test_type_name() {
    assert_eq!(Cell::Int(0).variant_name(), "Int");
    assert_eq!(Cell::DictAddr(0).variant_name(), "DictAddr");
    assert_eq!(Cell::StackAddr(0).variant_name(), "StackAddr");
    assert_eq!(Cell::Xt(Xt(0)).variant_name(), "Xt");
    assert_eq!(Cell::Bool(false).variant_name(), "Bool");
    assert_eq!(Cell::Nil.variant_name(), "Nil");
    assert_eq!(Cell::Array(0).variant_name(), "Array");
    assert_eq!(Cell::Str(String::new()).variant_name(), "Str");
}

#[test]
fn test_is_truthy() {
    assert!(Cell::Bool(true).is_truthy());
    assert!(!Cell::Bool(false).is_truthy());
    assert!(Cell::Int(1).is_truthy());
    assert!(Cell::Int(-1).is_truthy());
    assert!(!Cell::Int(0).is_truthy());
    // non-Int/Bool variants are falsy
    assert!(!Cell::Nil.is_truthy());
    assert!(!Cell::Array(0).is_truthy());
    assert!(!Cell::DictAddr(1).is_truthy());
    assert!(!Cell::StackAddr(1).is_truthy());
}

#[test]
fn test_variant_mismatch_not_equal() {
    assert_ne!(Cell::Bool(true), Cell::Int(1));
}

#[test]
fn test_xt_index() {
    assert_eq!(Xt(5).index(), 5);
}

#[test]
fn test_as_str() {
    let c = Cell::Str("abc".to_string());
    assert_eq!(c.as_str().map(|s| s.as_str()), Some("abc"));
    assert_eq!(Cell::Int(1).as_str(), None);
}

#[test]
fn test_dup_is_equal_copy() {
    let c = Cell::Str("x".to_string());
    assert_eq!(c.dup(), c);
    assert!(Cell::Marker.is_marker());
    assert!(!Cell::Nil.is_marker());
}
