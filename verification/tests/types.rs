use thrift_parser::basic::IdentifierRef;
use thrift_parser::definition::TypedefRef;
use thrift_parser::error::FailureKind;
use thrift_parser::types::{FieldType, FieldTypeRef};

fn named(name: &str) -> FieldTypeRef<'_> {
    FieldTypeRef::Identifier(IdentifierRef::from(name))
}

#[test]
fn every_base_type_has_its_keyword() {
    assert_eq!(FieldTypeRef::parse("bool").unwrap().1, FieldTypeRef::Bool);
    assert_eq!(FieldTypeRef::parse("byte").unwrap().1, FieldTypeRef::Byte);
    assert_eq!(FieldTypeRef::parse("i8").unwrap().1, FieldTypeRef::I8);
    assert_eq!(FieldTypeRef::parse("i16").unwrap().1, FieldTypeRef::I16);
    assert_eq!(FieldTypeRef::parse("i32").unwrap().1, FieldTypeRef::I32);
    assert_eq!(FieldTypeRef::parse("i64").unwrap().1, FieldTypeRef::I64);
    assert_eq!(FieldTypeRef::parse("double").unwrap().1, FieldTypeRef::Double);
    assert_eq!(FieldTypeRef::parse("string").unwrap().1, FieldTypeRef::String);
    assert_eq!(FieldTypeRef::parse("binary").unwrap().1, FieldTypeRef::Binary);
    assert_eq!(
        FieldTypeRef::parse_base_type("i64 x").unwrap(),
        (" x", FieldTypeRef::I64)
    );
    assert!(FieldTypeRef::parse_base_type("int").is_err());
    assert!(FieldTypeRef::parse_base_type("list<i32>").is_err());
}

#[test]
fn a_longer_word_is_a_name_and_no_keyword() {
    assert_eq!(FieldTypeRef::parse("i32x y").unwrap(), (" y", named("i32x")));
    assert_eq!(FieldTypeRef::parse("binary_data").unwrap().1, named("binary_data"));
    assert_eq!(FieldTypeRef::parse("Bool").unwrap().1, named("Bool"));
    assert_eq!(FieldTypeRef::parse("listing").unwrap().1, named("listing"));
    assert_eq!(FieldTypeRef::parse("list").unwrap().1, named("list"));
    assert_eq!(FieldTypeRef::parse("map <").unwrap(), (" <", named("map")));
}

#[test]
fn containers_of_types() {
    assert_eq!(
        FieldTypeRef::parse("list<i32>").unwrap().1,
        FieldTypeRef::List(Box::new(FieldTypeRef::I32))
    );
    assert_eq!(
        FieldTypeRef::parse("set<string>x").unwrap(),
        ("x", FieldTypeRef::SetOf(Box::new(FieldTypeRef::String)))
    );
    assert_eq!(
        FieldTypeRef::parse("map<string,User>").unwrap().1,
        FieldTypeRef::MapOf(Box::new(FieldTypeRef::String), Box::new(named("User")))
    );
    assert_eq!(
        FieldTypeRef::parse_container_type("list < /* of */ i32 > ").unwrap(),
        (" ", FieldTypeRef::List(Box::new(FieldTypeRef::I32)))
    );
    assert_eq!(
        FieldTypeRef::parse("map\n<\ni8\n,\ni16\n>").unwrap().1,
        FieldTypeRef::MapOf(Box::new(FieldTypeRef::I8), Box::new(FieldTypeRef::I16))
    );
    assert!(FieldTypeRef::parse_container_type("i32").is_err());
    assert!(FieldTypeRef::parse_container_type("list<>").is_err());
    assert!(FieldTypeRef::parse_container_type("map<i32>").is_err());
    assert!(FieldTypeRef::parse_container_type("list<i32").is_err());
}

#[test]
fn container_that_fails_leaves_its_keyword_as_a_name() {
    assert_eq!(FieldTypeRef::parse("list<i32").unwrap(), ("<i32", named("list")));
}

#[test]
fn nested_containers_keep_their_element_types() {
    let (rest, parsed) = TypedefRef::parse("typedef list<map<string,i32>> X").unwrap();
    assert_eq!(rest, "");
    assert_eq!(
        parsed,
        TypedefRef {
            doc_comment: None,
            old: FieldTypeRef::List(Box::new(FieldTypeRef::MapOf(
                Box::new(FieldTypeRef::String),
                Box::new(FieldTypeRef::I32)
            ))),
            alias: IdentifierRef::from("X"),
        }
    );
    let deep = "set<list<map<list<i8>,set<map<binary,Thing>>>>>";
    let (rest, parsed) = FieldTypeRef::parse(deep).unwrap();
    assert_eq!(rest, "");
    assert_eq!(
        parsed,
        FieldTypeRef::SetOf(Box::new(FieldTypeRef::List(Box::new(FieldTypeRef::MapOf(
            Box::new(FieldTypeRef::List(Box::new(FieldTypeRef::I8))),
            Box::new(FieldTypeRef::SetOf(Box::new(FieldTypeRef::MapOf(
                Box::new(FieldTypeRef::Binary),
                Box::new(named("Thing"))
            ))))
        )))))
    );
    assert_eq!(parsed.clone(), parsed);
}

#[test]
fn type_that_does_not_start_fails_without_consuming() {
    let e = FieldTypeRef::parse("<i32>").unwrap_err();
    assert_eq!(e.kind, FailureKind::NoMatch);
    assert_eq!(e.input, "<i32>");
    assert!(FieldTypeRef::parse("").is_err());
    assert!(FieldTypeRef::parse(" i32").is_err());
    assert!(FieldType::parse("1").is_err());
}

#[test]
fn owned_type_is_what_the_borrowed_one_is() {
    let text = "map<string, list<Thing>> rest";
    let (rest, borrowed) = FieldTypeRef::parse(text).unwrap();
    let (owned_rest, owned) = FieldType::parse(text).unwrap();
    assert_eq!(rest, " rest");
    assert_eq!(owned_rest, " rest");
    assert_eq!(FieldType::from(borrowed.clone()), owned);
    assert_eq!(FieldType::copy_of(&borrowed), owned.clone());
    match owned {
        FieldType::MapOf(key, value) => {
            assert_eq!(*key, FieldType::String);
            match *value {
                FieldType::List(element) => match *element {
                    FieldType::Identifier(name) => assert_eq!(name.as_str(), "Thing"),
                    other => panic!("{:?}", other),
                },
                other => panic!("{:?}", other),
            }
        }
        other => panic!("{:?}", other),
    }
}
