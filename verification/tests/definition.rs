use thrift_parser::basic::{IdentifierRef, LiteralRef};
use thrift_parser::constant::{ConstValueRef, IntConstant};
use thrift_parser::definition::{
    ConstRef, EnumRef, EnumValueRef, ServiceRef, StructRef, TypedefRef,
};
use thrift_parser::field::FieldRef;
use thrift_parser::functions::FunctionRef;
use thrift_parser::types::FieldTypeRef;

#[test]
fn test_const() {
    assert_eq!(
        ConstRef::parse("const bool is_rust_easy = 'yes!';")
            .unwrap()
            .1,
        ConstRef {
            doc_comment: None,
            name: IdentifierRef::from("is_rust_easy"),
            type_: FieldTypeRef::Bool,
            value: ConstValueRef::Literal(LiteralRef::from("yes!"))
        }
    );
}

#[test]
fn test_typedef() {
    assert_eq!(
        TypedefRef::parse("typedef i32 MyI32").unwrap().1,
        TypedefRef {
            doc_comment: None,
            old: FieldTypeRef::I32,
            alias: IdentifierRef::from("MyI32")
        }
    );
}

#[test]
fn test_enum() {
    let expected = EnumRef {
        doc_comment: None,
        name: IdentifierRef::from("PL"),
        children: vec![
            EnumValueRef {
                name: IdentifierRef::from("Rust"),
                value: None,
            },
            EnumValueRef {
                name: IdentifierRef::from("Go"),
                value: Some(IntConstant::from(2)),
            },
            EnumValueRef {
                name: IdentifierRef::from("Cpp"),
                value: Some(IntConstant::from(3)),
            },
        ],
    };
    assert_eq!(
        EnumRef::parse("enum PL { Rust Go=2 , Cpp = 3 }").unwrap().1,
        expected
    );
    assert_eq!(
        EnumRef::parse("enum PL{Rust Go=2,Cpp=3}").unwrap().1,
        expected
    );
}

#[test]
fn test_struct() {
    let expected = StructRef {
        doc_comment: None,
        name: IdentifierRef::from("user"),
        fields: vec![
            FieldRef {
                id: Some(IntConstant::from(1)),
                required: Some(false),
                type_: FieldTypeRef::String,
                name: IdentifierRef::from("name"),
                default: None,
            },
            FieldRef {
                id: Some(IntConstant::from(2)),
                required: None,
                type_: FieldTypeRef::I32,
                name: IdentifierRef::from("age"),
                default: Some(ConstValueRef::Int(IntConstant::from(18))),
            },
        ],
    };
    assert_eq!(
        StructRef::parse("struct user{1:optional string name; 2:i32 age=18}")
            .unwrap()
            .1,
        expected
    );
    assert_eq!(
        StructRef::parse("struct user { 1 : optional string name ; 2 : i32 age = 18 }")
            .unwrap()
            .1,
        expected
    );
}

#[test]
fn test_service() {
    let function = FunctionRef {
        oneway: false,
        returns: Some(FieldTypeRef::String),
        name: IdentifierRef::from("GetUser"),
        parameters: vec![FieldRef {
            id: None,
            required: Some(true),
            type_: FieldTypeRef::String,
            name: IdentifierRef::from("name"),
            default: None,
        }],
        exceptions: None,
    };
    let expected = ServiceRef {
        doc_comment: None,
        name: IdentifierRef::from("DemoService"),
        extension: Some(IdentifierRef::from("BaseService")),
        functions: vec![function.clone(), function],
    };
    assert_eq!(
        ServiceRef::parse(
            "service DemoService extends BaseService { \
     string GetUser(required string name),
     string GetUser(required string name) }"
        )
        .unwrap()
        .1,
        expected
    );
}
