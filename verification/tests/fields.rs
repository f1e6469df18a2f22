use thrift_parser::basic::{IdentifierRef, LiteralRef};
use thrift_parser::constant::{ConstValueRef, IntConstant};
use thrift_parser::error::FailureKind;
use thrift_parser::field::{Field, FieldRef};
use thrift_parser::functions::{Function, FunctionRef};
use thrift_parser::types::FieldTypeRef;

fn plain<'a>(type_: FieldTypeRef<'a>, name: &'a str) -> FieldRef<'a> {
    FieldRef {
        id: None,
        required: None,
        type_,
        name: IdentifierRef::from(name),
        default: None,
    }
}

#[test]
fn field_with_all_its_parts() {
    let (rest, f) = FieldRef::parse("1: required string name = 'x', next").unwrap();
    assert_eq!(rest, ", next");
    assert_eq!(
        f,
        FieldRef {
            id: Some(IntConstant(1)),
            required: Some(true),
            type_: FieldTypeRef::String,
            name: IdentifierRef::from("name"),
            default: Some(ConstValueRef::Literal(LiteralRef::from("x"))),
        }
    );
}

#[test]
fn requiredness_has_three_states() {
    assert_eq!(FieldRef::parse("required i32 a").unwrap().1.required, Some(true));
    assert_eq!(FieldRef::parse("optional i32 a").unwrap().1.required, Some(false));
    assert_eq!(FieldRef::parse("i32 a").unwrap().1.required, None);
    let owned = Field::parse("i32 a").unwrap().1;
    assert_eq!(owned.required, None);
    assert_eq!(Field::parse("optional i32 a").unwrap().1.required, Some(false));
    assert_eq!(Field::parse("required i32 a").unwrap().1.required, Some(true));
}

#[test]
fn a_word_that_only_starts_like_a_keyword_is_a_type() {
    assert_eq!(
        FieldRef::parse("required_t a").unwrap().1,
        plain(FieldTypeRef::Identifier(IdentifierRef::from("required_t")), "a")
    );
    assert_eq!(
        FieldRef::parse("optionals a").unwrap().1,
        plain(FieldTypeRef::Identifier(IdentifierRef::from("optionals")), "a")
    );
}

#[test]
fn field_leaves_what_follows_its_name_or_default() {
    assert_eq!(FieldRef::parse("i32 a ;").unwrap(), (" ;", plain(FieldTypeRef::I32, "a")));
    assert_eq!(FieldRef::parse("i32 a = ").unwrap(), (" = ", plain(FieldTypeRef::I32, "a")));
    let (rest, f) = FieldRef::parse("i32 a = 1 \n").unwrap();
    assert_eq!(rest, " \n");
    assert_eq!(f.default, Some(ConstValueRef::Int(IntConstant(1))));
}

#[test]
fn field_id_with_separators_around_the_colon() {
    let (_, f) = FieldRef::parse("-3 /* id */ : // type\n i64 big").unwrap();
    assert_eq!(f.id, Some(IntConstant(-3)));
    assert_eq!(f.type_, FieldTypeRef::I64);
    assert_eq!(f.name.as_str(), "big");
}

#[test]
fn field_that_misses_a_part_fails() {
    let e = FieldRef::parse("1: string").unwrap_err();
    assert_eq!(e.kind, FailureKind::NoMatch);
    assert_eq!(e.input, "1: string");
    assert!(FieldRef::parse("1 string a").is_err());
    assert!(FieldRef::parse("string").is_err());
    assert!(FieldRef::parse("string 1").is_err());
    assert!(FieldRef::parse("optional a").is_err());
    assert!(FieldRef::parse("").is_err());
    assert!(Field::parse(": i32 a").is_err());
}

#[test]
fn function_with_every_part() {
    let text = "oneway void ping ( 1: i32 a, 2: string b = 's' ) throws ( 1: Oops e ; 2: Bad f ),";
    let (rest, f) = FunctionRef::parse(text).unwrap();
    assert_eq!(rest, ",");
    assert_eq!(
        f,
        FunctionRef {
            oneway: true,
            returns: None,
            name: IdentifierRef::from("ping"),
            parameters: vec![
                FieldRef {
                    id: Some(IntConstant(1)),
                    required: None,
                    type_: FieldTypeRef::I32,
                    name: IdentifierRef::from("a"),
                    default: None,
                },
                FieldRef {
                    id: Some(IntConstant(2)),
                    required: None,
                    type_: FieldTypeRef::String,
                    name: IdentifierRef::from("b"),
                    default: Some(ConstValueRef::Literal(LiteralRef::from("s"))),
                },
            ],
            exceptions: Some(vec![
                FieldRef {
                    id: Some(IntConstant(1)),
                    required: None,
                    type_: FieldTypeRef::Identifier(IdentifierRef::from("Oops")),
                    name: IdentifierRef::from("e"),
                    default: None,
                },
                FieldRef {
                    id: Some(IntConstant(2)),
                    required: None,
                    type_: FieldTypeRef::Identifier(IdentifierRef::from("Bad")),
                    name: IdentifierRef::from("f"),
                    default: None,
                },
            ]),
        }
    );
}

#[test]
fn function_parameters_with_every_kind_of_gap() {
    let expected = vec![plain(FieldTypeRef::I32, "a"), plain(FieldTypeRef::I64, "b")];
    assert_eq!(FunctionRef::parse("void f(i32 a,i64 b)").unwrap().1.parameters, expected);
    assert_eq!(FunctionRef::parse("void f(i32 a i64 b)").unwrap().1.parameters, expected);
    assert_eq!(FunctionRef::parse("void f( i32 a ; i64 b , )").unwrap().1.parameters, expected);
    assert_eq!(FunctionRef::parse("void f()").unwrap().1.parameters, vec![]);
    assert_eq!(FunctionRef::parse("void f ( )").unwrap().1.parameters, vec![]);
}

#[test]
fn oneway_with_a_return_type_is_accepted() {
    let (_, f) = FunctionRef::parse("oneway i32 f()").unwrap();
    assert!(f.oneway);
    assert_eq!(f.returns, Some(FieldTypeRef::I32));
    let (_, f) = FunctionRef::parse("voidness f()").unwrap();
    assert_eq!(
        f.returns,
        Some(FieldTypeRef::Identifier(IdentifierRef::from("voidness")))
    );
    assert!(FunctionRef::parse("oneway f()").is_err());
    let (_, f) = FunctionRef::parse("oneways f()").unwrap();
    assert!(!f.oneway);
    assert_eq!(f.returns, Some(FieldTypeRef::Identifier(IdentifierRef::from("oneways"))));
}

#[test]
fn throws_needs_a_field() {
    let (rest, f) = FunctionRef::parse("void f() throws ()").unwrap();
    assert_eq!(f.exceptions, None);
    assert_eq!(rest, " throws ()");
    let (rest, f) = FunctionRef::parse("void f() throws(Oops e)").unwrap();
    assert_eq!(
        f.exceptions,
        Some(vec![plain(FieldTypeRef::Identifier(IdentifierRef::from("Oops")), "e")])
    );
    assert_eq!(rest, "");
    let (rest, f) = FunctionRef::parse("void f() throwsX(Oops e)").unwrap();
    assert_eq!(f.exceptions, None);
    assert_eq!(rest, " throwsX(Oops e)");
}

#[test]
fn function_that_misses_a_part_fails() {
    let e = FunctionRef::parse("void f(").unwrap_err();
    assert_eq!(e.kind, FailureKind::NoMatch);
    assert_eq!(e.input, "void f(");
    assert!(FunctionRef::parse("void").is_err());
    assert!(FunctionRef::parse("void f").is_err());
    assert!(FunctionRef::parse("voidf()").is_err());
    assert!(FunctionRef::parse("void f(i32)").is_err());
    assert!(FunctionRef::parse("(i32 a)").is_err());
    assert!(Function::parse("void f(").is_err());
}

#[test]
fn owned_function_is_what_the_borrowed_one_is() {
    let text = "list<i32> get(1: required map<string, i32> m = {'a': 1}) throws (Oops e) tail";
    let (rest, borrowed) = FunctionRef::parse(text).unwrap();
    let (owned_rest, owned) = Function::parse(text).unwrap();
    assert_eq!(rest, " tail");
    assert_eq!(owned_rest, " tail");
    assert_eq!(Function::from(borrowed.clone()), owned);
    assert_eq!(Function::copy_of(&borrowed), owned.clone());
    assert_eq!(Function::copies_of(&vec![borrowed.clone(), borrowed]), vec![owned.clone(), owned.clone()]);
    assert_eq!(owned.name.as_str(), "get");
    assert_eq!(owned.parameters.len(), 1);
    assert_eq!(owned.parameters[0].name.as_str(), "m");
    assert_eq!(owned.parameters[0].required, Some(true));
    assert_eq!(owned.exceptions.as_ref().unwrap().len(), 1);
    assert_eq!(owned.exceptions.unwrap()[0].name.as_str(), "e");
}
