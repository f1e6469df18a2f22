use thrift_parser::basic::{IdentifierRef, LiteralRef};
use thrift_parser::constant::{
    ConstValue, ConstValueRef, DoubleConstant, DoubleConstantRef, IntConstant,
};
use thrift_parser::error::FailureKind;

#[test]
fn int_constant_with_and_without_sign() {
    assert_eq!(IntConstant::parse("18}").unwrap(), ("}", IntConstant::from(18)));
    assert_eq!(IntConstant::parse("+7").unwrap(), ("", IntConstant(7)));
    assert_eq!(IntConstant::parse("-42 ").unwrap(), (" ", IntConstant(-42)));
    assert_eq!(IntConstant::parse("007").unwrap().1.value(), 7);
    assert_eq!(IntConstant::parse("0").unwrap().1.value(), 0);
    assert_eq!(IntConstant::parse("-0").unwrap().1.value(), 0);
}

#[test]
fn int_constant_at_the_limits() {
    assert_eq!(
        IntConstant::parse("9223372036854775807").unwrap().1,
        IntConstant(i64::MAX)
    );
    assert_eq!(
        IntConstant::parse("-9223372036854775808").unwrap().1,
        IntConstant(i64::MIN)
    );
    assert!(IntConstant::parse("9223372036854775808").is_err());
    assert!(IntConstant::parse("+9223372036854775808").is_err());
    assert!(IntConstant::parse("-9223372036854775809").is_err());
    assert!(IntConstant::parse("123456789012345678901234567890123456789012345").is_err());
    assert_eq!(
        IntConstant::parse("0000000000000000000000000000000000000012").unwrap().1,
        IntConstant(12)
    );
}

#[test]
fn int_constant_needs_a_digit() {
    let e = IntConstant::parse("-x").unwrap_err();
    assert_eq!(e.kind, FailureKind::NoMatch);
    assert_eq!(e.input, "-x");
    assert!(IntConstant::parse("").is_err());
    assert!(IntConstant::parse("+").is_err());
    assert!(IntConstant::parse("--1").is_err());
    assert!(IntConstant::parse(" 1").is_err());
}

#[test]
fn double_constant_keeps_its_text() {
    let (rest, d) = DoubleConstantRef::parse("3.14;").unwrap();
    assert_eq!(d, DoubleConstantRef::from("3.14"));
    assert_eq!(rest, ";");
    assert_eq!(DoubleConstantRef::parse("-0.5e10 ").unwrap().1.as_str(), "-0.5e10");
    assert_eq!(DoubleConstantRef::parse("+1.0E-3x").unwrap().1.as_str(), "+1.0E-3");
    let (rest, d) = DoubleConstantRef::parse("1.5e").unwrap();
    assert_eq!(d.as_str(), "1.5");
    assert_eq!(rest, "e");
    let (rest, d) = DoubleConstantRef::parse("1.5e+").unwrap();
    assert_eq!(d.as_str(), "1.5");
    assert_eq!(rest, "e+");
    assert_eq!(DoubleConstant::from(d).as_str(), "1.5");
    assert_eq!(DoubleConstant::parse("-2.25E2,").unwrap().1.as_str(), "-2.25E2");
    assert_eq!(DoubleConstant::parse("2").unwrap_err().input, "2");
}

#[test]
fn double_constant_needs_digits_on_both_sides_of_the_point() {
    assert!(DoubleConstantRef::parse("1").is_err());
    assert!(DoubleConstantRef::parse("1.").is_err());
    assert!(DoubleConstantRef::parse(".5").is_err());
    assert!(DoubleConstantRef::parse("1e5").is_err());
    assert!(DoubleConstantRef::parse("-.5").is_err());
    let e = DoubleConstantRef::parse("x1.5").unwrap_err();
    assert_eq!(e.kind, FailureKind::NoMatch);
    assert_eq!(e.input, "x1.5");
}

#[test]
fn const_value_alternatives() {
    assert_eq!(
        ConstValueRef::parse("18").unwrap().1,
        ConstValueRef::Int(IntConstant(18))
    );
    assert_eq!(
        ConstValueRef::parse("\"s\"").unwrap().1,
        ConstValueRef::Literal(LiteralRef::from("s"))
    );
    assert_eq!(
        ConstValueRef::parse("Color.RED").unwrap(),
        (".RED", ConstValueRef::Identifier(IdentifierRef::from("Color")))
    );
    assert!(ConstValueRef::parse("").is_err());
    assert!(ConstValueRef::parse("]").is_err());
    assert!(ConstValueRef::parse("=1").is_err());
}

#[test]
fn const_value_tries_the_integer_first() {
    let (rest, v) = ConstValueRef::parse("1.5").unwrap();
    assert_eq!(v, ConstValueRef::Int(IntConstant(1)));
    assert_eq!(rest, ".5");
    let (rest, v) = ConstValueRef::parse("99999999999999999999.5 x").unwrap();
    assert_eq!(
        v,
        ConstValueRef::Double(DoubleConstantRef::from("99999999999999999999.5"))
    );
    assert_eq!(rest, " x");
}

#[test]
fn const_list_with_every_kind_of_gap() {
    let expected = ConstValueRef::List(vec![
        ConstValueRef::Int(IntConstant(1)),
        ConstValueRef::Int(IntConstant(2)),
        ConstValueRef::Literal(LiteralRef::from("x")),
        ConstValueRef::Identifier(IdentifierRef::from("y")),
    ]);
    assert_eq!(ConstValueRef::parse("[1,2,'x',y]").unwrap(), ("", expected.clone()));
    assert_eq!(ConstValueRef::parse("[ 1 2 ; 'x' , y ]").unwrap().1, expected);
    assert_eq!(ConstValueRef::parse("[1, 2, 'x', y,]").unwrap().1, expected);
    assert_eq!(
        ConstValueRef::parse("[ /* a */ 1 // b\n 2 'x' y , ]z").unwrap(),
        ("z", expected)
    );
    assert_eq!(ConstValueRef::parse("[]").unwrap().1, ConstValueRef::List(vec![]));
    assert_eq!(ConstValueRef::parse("[ ]").unwrap().1, ConstValueRef::List(vec![]));
    assert_eq!(ConstValueRef::parse("[,]").unwrap().1, ConstValueRef::List(vec![]));
}

#[test]
fn const_list_that_does_not_close_fails() {
    assert!(ConstValueRef::parse("[1, 2").is_err());
    assert!(ConstValueRef::parse("[1 2}").is_err());
    assert!(ConstValueRef::parse("[1 2").is_err());
    assert!(ConstValueRef::parse("[1,,2]").is_err());
    let e = ConstValueRef::parse("[1, [2, 3]").unwrap_err();
    assert_eq!(e.kind, FailureKind::NoMatch);
    assert_eq!(e.input, "[1, [2, 3]");
}

#[test]
fn const_map_keeps_its_entries_in_order() {
    let expected = ConstValueRef::MapOf(vec![
        (
            ConstValueRef::Literal(LiteralRef::from("b")),
            ConstValueRef::Int(IntConstant(2)),
        ),
        (
            ConstValueRef::Literal(LiteralRef::from("a")),
            ConstValueRef::List(vec![ConstValueRef::Int(IntConstant(1))]),
        ),
    ]);
    assert_eq!(ConstValueRef::parse("{'b':2,'a':[1]}").unwrap().1, expected);
    assert_eq!(
        ConstValueRef::parse("{ 'b' : 2 ; 'a' : [ 1 ] , }").unwrap().1,
        expected
    );
    assert_eq!(ConstValueRef::parse("{}").unwrap().1, ConstValueRef::MapOf(vec![]));
    assert!(ConstValueRef::parse("{'a'}").is_err());
    assert!(ConstValueRef::parse("{'a':}").is_err());
    assert!(ConstValueRef::parse("{'a':1").is_err());
}

#[test]
fn const_values_nest() {
    let (rest, v) = ConstValueRef::parse("[[1], {a: [b, {}]}, []] tail").unwrap();
    assert_eq!(rest, " tail");
    assert_eq!(
        v,
        ConstValueRef::List(vec![
            ConstValueRef::List(vec![ConstValueRef::Int(IntConstant(1))]),
            ConstValueRef::MapOf(vec![(
                ConstValueRef::Identifier(IdentifierRef::from("a")),
                ConstValueRef::List(vec![
                    ConstValueRef::Identifier(IdentifierRef::from("b")),
                    ConstValueRef::MapOf(vec![]),
                ]),
            )]),
            ConstValueRef::List(vec![]),
        ])
    );
}

#[test]
fn owned_const_value_is_what_the_borrowed_one_is() {
    let text = "{'k': [1, 2, x], 3: 'v'}";
    let (rest, borrowed) = ConstValueRef::parse(text).unwrap();
    let (owned_rest, owned) = ConstValue::parse(text).unwrap();
    assert_eq!(rest, owned_rest);
    assert_eq!(ConstValue::from(borrowed.clone()), owned);
    assert_eq!(ConstValue::copy_of(&borrowed), owned.clone());
    match owned {
        ConstValue::MapOf(entries) => {
            assert_eq!(entries.len(), 2);
            match &entries[0].1 {
                ConstValue::List(items) => {
                    assert_eq!(items.len(), 3);
                    assert_eq!(items[0], ConstValue::Int(IntConstant(1)));
                    match &items[1] {
                        ConstValue::Int(i) => assert_eq!(i.value(), 2),
                        other => panic!("{:?}", other),
                    }
                }
                other => panic!("{:?}", other),
            }
        }
        other => panic!("{:?}", other),
    }
    assert!(ConstValue::parse("]").is_err());
}
