use boa_engine::interner::{Interner, Sym};
use boa_engine::syntax::{ContainsSymbol, Expression, Literal, Throw};

#[test]
fn fmt() {
    let mut interner = Interner::new();
    let hello = interner.get_or_intern("hello");
    let node = Throw::new(Expression::Literal(Literal::String(hello)));
    assert_eq!(node.to_interned_string(&interner), "throw \"hello\"");
}

#[test]
fn throw_target_is_the_given_expression() {
    let node = Throw::new(Expression::This);
    assert!(matches!(node.target(), Expression::This));
}

#[test]
fn throw_formats_nested_expressions() {
    let mut interner = Interner::new();
    let e = interner.get_or_intern("e");
    let node = Throw::new(Expression::Await(Box::new(Expression::Identifier(e))));
    assert_eq!(node.to_interned_string(&interner), "throw await e");
    let node = Throw::new(Expression::Yield(None));
    assert_eq!(node.to_interned_string(&interner), "throw yield");
    let node = Throw::new(Expression::Yield(Some(Box::new(Expression::NewTarget))));
    assert_eq!(node.to_interned_string(&interner), "throw yield new.target");
    let node = Throw::new(Expression::Literal(Literal::Bool(false)));
    assert_eq!(node.to_interned_string(&interner), "throw false");
    let node = Throw::new(Expression::Literal(Literal::Null));
    assert_eq!(node.to_interned_string(&interner), "throw null");
    let node = Throw::new(Expression::Literal(Literal::Undefined));
    assert_eq!(node.to_interned_string(&interner), "throw undefined");
}

#[test]
fn throw_contains_arguments() {
    let mut interner = Interner::new();
    let arguments = interner.get_or_intern("arguments");
    assert_eq!(arguments.get(), Sym::arguments().get());
    let node = Throw::new(Expression::Await(Box::new(Expression::Identifier(arguments))));
    assert!(node.contains_arguments());
    let other = interner.get_or_intern("other");
    let node = Throw::new(Expression::Identifier(other));
    assert!(!node.contains_arguments());
}

#[test]
fn throw_contains_symbols() {
    let node = Throw::new(Expression::Yield(Some(Box::new(Expression::This))));
    assert!(node.contains(ContainsSymbol::YieldExpression));
    assert!(node.contains(ContainsSymbol::This));
    assert!(!node.contains(ContainsSymbol::AwaitExpression));
    assert!(!node.contains(ContainsSymbol::NewTarget));
}

#[test]
fn interning_twice_gives_the_same_symbol() {
    let mut interner = Interner::new();
    let a = interner.get_or_intern("a");
    let b = interner.get_or_intern("b");
    let a2 = interner.get_or_intern("a");
    assert_eq!(a, a2);
    assert_ne!(a, b);
    assert_eq!(interner.resolve(a).unwrap(), "a");
    assert_eq!(interner.resolve(b).unwrap(), "b");
    assert_eq!(interner.get_or_intern(""), Sym::empty_string());
    assert!(interner.resolve(Sym::new(99).unwrap()).is_none());
}

#[test]
fn symbol_zero_does_not_exist() {
    assert!(Sym::new(0).is_none());
    assert_eq!(Sym::new(7).unwrap().get(), 7);
}
