use thrift_parser::basic::{Comment, CommentRef, IdentifierRef};
use thrift_parser::constant::{ConstValueRef, IntConstant};
use thrift_parser::definition::{
    Const, ConstRef, Enum, EnumRef, EnumValue, EnumValueRef, Exception, ExceptionRef, Service,
    ServiceRef, Struct, StructRef, Typedef, TypedefRef, Union, UnionRef,
};
use thrift_parser::error::FailureKind;
use thrift_parser::types::FieldTypeRef;

#[test]
fn const_consumes_its_closing_mark() {
    let (rest, c) = ConstRef::parse("const bool is_rust_easy = 'yes!';").unwrap();
    assert_eq!(rest, "");
    assert_eq!(c.name.as_str(), "is_rust_easy");
    let (rest, _) = ConstRef::parse("const i32 a = 1 , next").unwrap();
    assert_eq!(rest, " next");
    let (rest, _) = ConstRef::parse("const i32 a = 1 next").unwrap();
    assert_eq!(rest, " next");
    let (rest, _) = ConstRef::parse("const i32 a=1;;").unwrap();
    assert_eq!(rest, ";");
}

#[test]
fn whitespace_and_comments_do_not_change_the_node() {
    let plain = TypedefRef::parse("typedef i32 MyI32").unwrap();
    let wide = TypedefRef::parse("typedef   i32    MyI32").unwrap();
    let noisy = TypedefRef::parse("typedef /* a */ i32 // b\n\t# c\r\n MyI32").unwrap();
    assert_eq!(plain.1, wide.1);
    assert_eq!(plain.1, noisy.1);
    assert_eq!(plain.0, "");
    assert_eq!(wide.0, "");
    assert_eq!(noisy.0, "");

    let tight = ConstRef::parse("const map<string,i32> m={'a':1,'b':2};").unwrap().1;
    let loose = ConstRef::parse(
        "const /* t */ map < string , i32 >\n m // n\n = { 'a' : 1 , 'b' : 2 } ;",
    )
    .unwrap()
    .1;
    assert_eq!(tight, loose);

    let tight = ServiceRef::parse("service S extends B{void f(i32 a)throws(E e); i32 g()}").unwrap().1;
    let loose = ServiceRef::parse(
        "service  S  extends  B  {\n  void  f ( i32  a )  throws ( E  e ) ;\n  i32  g ( )\n}",
    )
    .unwrap()
    .1;
    assert_eq!(tight, loose);
}

#[test]
fn misspelled_keyword_fails_at_the_start() {
    let e = StructRef::parse("structZZZ foo {}").unwrap_err();
    assert_eq!(e.kind, FailureKind::NoMatch);
    assert_eq!(e.input, "structZZZ foo {}");
    let e = Struct::parse("structZZZ foo {}").unwrap_err();
    assert_eq!(e.kind, FailureKind::NoMatch);
    assert_eq!(e.input, "structZZZ foo {}");
}

#[test]
fn failure_kinds_of_every_definition() {
    assert_eq!(ConstRef::parse("typedef i32 X").unwrap_err().kind, FailureKind::NoMatch);
    assert_eq!(ConstRef::parse("const").unwrap_err().kind, FailureKind::NoMatch);
    assert_eq!(ConstRef::parse("const i32 x").unwrap_err().kind, FailureKind::Incomplete);
    assert_eq!(ConstRef::parse("const i32 = 1").unwrap_err().kind, FailureKind::Incomplete);
    assert_eq!(ConstRef::parse("const 1").unwrap_err().kind, FailureKind::Incomplete);
    assert_eq!(Const::parse("const i32 x =").unwrap_err().kind, FailureKind::Incomplete);
    assert_eq!(TypedefRef::parse("").unwrap_err().kind, FailureKind::NoMatch);
    assert_eq!(TypedefRef::parse("typedef Other X").unwrap_err().kind, FailureKind::Incomplete);
    assert_eq!(TypedefRef::parse("typedef i32").unwrap_err().kind, FailureKind::Incomplete);
    assert_eq!(Typedef::parse("typedef i32 ").unwrap_err().kind, FailureKind::Incomplete);
    assert_eq!(EnumRef::parse("enumerate").unwrap_err().kind, FailureKind::NoMatch);
    assert_eq!(EnumRef::parse("enum E { A = }").unwrap_err().kind, FailureKind::Incomplete);
    assert_eq!(EnumRef::parse("enum E { A").unwrap_err().kind, FailureKind::Incomplete);
    assert_eq!(Enum::parse("enum { A }").unwrap_err().kind, FailureKind::Incomplete);
    assert_eq!(StructRef::parse("union U {}").unwrap_err().kind, FailureKind::NoMatch);
    assert_eq!(StructRef::parse("struct S { i32 }").unwrap_err().kind, FailureKind::Incomplete);
    assert_eq!(StructRef::parse("struct S {i32 a;i32 b}").unwrap_err().kind, FailureKind::Incomplete);
    assert_eq!(UnionRef::parse("struct S {}").unwrap_err().kind, FailureKind::NoMatch);
    assert_eq!(UnionRef::parse("union U").unwrap_err().kind, FailureKind::Incomplete);
    assert_eq!(Union::parse("union U {").unwrap_err().kind, FailureKind::Incomplete);
    assert_eq!(ExceptionRef::parse("exceptional E {}").unwrap_err().kind, FailureKind::NoMatch);
    assert_eq!(ExceptionRef::parse("exception E }").unwrap_err().kind, FailureKind::Incomplete);
    assert_eq!(Exception::parse("exception 1 {}").unwrap_err().kind, FailureKind::Incomplete);
    assert_eq!(ServiceRef::parse("services S {}").unwrap_err().kind, FailureKind::NoMatch);
    assert_eq!(ServiceRef::parse("service S extends {}").unwrap_err().kind, FailureKind::Incomplete);
    assert_eq!(ServiceRef::parse("service S { void f( }").unwrap_err().kind, FailureKind::Incomplete);
    assert_eq!(Service::parse("service S extendsB {}").unwrap_err().kind, FailureKind::Incomplete);
}

#[test]
fn failure_returns_the_whole_input() {
    let inputs = [
        "const i32 x",
        "typedef Other X",
        "enum E { A",
        "struct S { i32 }",
        "union U",
        "exception E }",
        "service S { void f( }",
        "// doc\nconst i32",
    ];
    for input in inputs {
        assert_eq!(ConstRef::parse(input).unwrap_err().input, input);
        assert_eq!(TypedefRef::parse(input).unwrap_err().input, input);
        assert_eq!(EnumRef::parse(input).unwrap_err().input, input);
        assert_eq!(StructRef::parse(input).unwrap_err().input, input);
        assert_eq!(UnionRef::parse(input).unwrap_err().input, input);
        assert_eq!(ExceptionRef::parse(input).unwrap_err().input, input);
        assert_eq!(ServiceRef::parse(input).unwrap_err().input, input);
        assert_eq!(Service::parse(input).unwrap_err().input, input);
    }
}

#[test]
fn doc_comment_is_attached_when_a_line_end_follows_it() {
    let (rest, c) = ConstRef::parse("// The answer.\n  const i32 answer = 42\nrest").unwrap();
    assert_eq!(c.doc_comment, Some(CommentRef::from(" The answer.")));
    assert_eq!(c.value, ConstValueRef::Int(IntConstant(42)));
    assert_eq!(rest, "\nrest");
    let (_, t) = TypedefRef::parse("/** Doc. */\r\ntypedef i32 T").unwrap();
    assert_eq!(t.doc_comment, Some(CommentRef::from("* Doc. ")));
    let (_, e) = EnumRef::parse("# members\nenum E {}").unwrap();
    assert_eq!(e.doc_comment, Some(CommentRef::from(" members")));
    let owned = Enum::parse("# members\nenum E {}").unwrap().1;
    assert_eq!(owned.doc_comment, Some(Comment::from(CommentRef::from(" members"))));
    assert_eq!(owned.doc_comment.unwrap().as_str(), " members");
}

#[test]
fn doc_comment_needs_the_keyword_right_after_its_line() {
    let e = ConstRef::parse("/* doc */ const i32 a = 1").unwrap_err();
    assert_eq!(e.kind, FailureKind::NoMatch);
    let e = ConstRef::parse("// doc\n\nconst i32 a = 1").unwrap_err();
    assert_eq!(e.kind, FailureKind::NoMatch);
    let e = ConstRef::parse("// a\n// b\nconst i32 a = 1").unwrap_err();
    assert_eq!(e.kind, FailureKind::NoMatch);
    let e = ConstRef::parse(" const i32 a = 1").unwrap_err();
    assert_eq!(e.kind, FailureKind::NoMatch);
    let e = ConstRef::parse("// doc\nconst i32 a").unwrap_err();
    assert_eq!(e.kind, FailureKind::Incomplete);
}

#[test]
fn enum_with_no_member_and_with_closing_gaps() {
    let empty = EnumRef {
        doc_comment: None,
        name: IdentifierRef::from("E"),
        children: vec![],
    };
    assert_eq!(EnumRef::parse("enum E{}").unwrap(), ("", empty.clone()));
    assert_eq!(EnumRef::parse("enum E { } x").unwrap(), (" x", empty.clone()));
    assert_eq!(EnumRef::parse("enum E { , }").unwrap().1, empty);
    let one = EnumRef::parse("enum E { A = -1 ; }").unwrap().1;
    assert_eq!(
        one.children,
        vec![EnumValueRef { name: IdentifierRef::from("A"), value: Some(IntConstant(-1)) }]
    );
    assert_eq!(
        EnumValueRef::parse("A = x").unwrap(),
        (" = x", EnumValueRef { name: IdentifierRef::from("A"), value: None })
    );
    assert!(EnumValueRef::parse("1").is_err());
    assert_eq!(EnumValue::parse("B=2").unwrap().1.value, Some(IntConstant(2)));
    assert_eq!(EnumValue::parse("=2").unwrap_err().input, "=2");
}

#[test]
fn enum_members_are_numbered_from_the_one_before() {
    let e = Enum::parse("enum E { A, B, C = 10, D, E = -5, F, G = 9223372036854775807, H, I }")
        .unwrap()
        .1;
    assert_eq!(e.effective_value(0), Some(0));
    assert_eq!(e.effective_value(1), Some(1));
    assert_eq!(e.effective_value(2), Some(10));
    assert_eq!(e.effective_value(3), Some(11));
    assert_eq!(e.effective_value(4), Some(-5));
    assert_eq!(e.effective_value(5), Some(-4));
    assert_eq!(e.effective_value(6), Some(i64::MAX));
    assert_eq!(e.effective_value(7), None);
    assert_eq!(e.effective_value(8), None);
    assert_eq!(e.effective_value(9), None);
    let empty = Enum::parse("enum E {}").unwrap().1;
    assert_eq!(empty.effective_value(0), None);
}

#[test]
fn struct_union_and_exception_have_the_same_shape() {
    let body = " Thing { 1: i32 a, 2: optional list<string> b = ['x'] ; required Other c }";
    let s = StructRef::parse(&format!("struct{}", body)).map(|(_, n)| Struct::from(n)).unwrap();
    let u = UnionRef::parse(&format!("union{}", body)).map(|(_, n)| Union::from(n)).unwrap();
    let x = ExceptionRef::parse(&format!("exception{}", body))
        .map(|(_, n)| Exception::from(n))
        .unwrap();
    assert_eq!(s.name.as_str(), "Thing");
    assert_eq!(s.fields.len(), 3);
    assert_eq!(s.fields, u.fields);
    assert_eq!(s.fields, x.fields);
    assert_eq!(s.name, u.name);
    assert_eq!(u.name, x.name);
    assert_eq!(s.fields[2].required, Some(true));
    assert_eq!(s.fields[2].id, None);
    assert_eq!(s.fields[1].required, Some(false));
    assert_eq!(s.fields[0].required, None);
}

#[test]
fn fields_keep_the_order_of_the_source() {
    let s = StructRef::parse("struct S { i32 z\n i32 a\n i32 m }").unwrap().1;
    let names: Vec<&str> = s.fields.iter().map(|f| f.name.as_str()).collect();
    assert_eq!(names, vec!["z", "a", "m"]);
    let empty = StructRef::parse("struct S{}").unwrap().1;
    assert_eq!(empty.fields, vec![]);
}

#[test]
fn service_without_extension_and_without_functions() {
    let (rest, s) = ServiceRef::parse("service S{}tail").unwrap();
    assert_eq!(rest, "tail");
    assert_eq!(s.extension, None);
    assert_eq!(s.functions, vec![]);
    let s = ServiceRef::parse("service extends { }").unwrap().1;
    assert_eq!(s.name.as_str(), "extends");
    assert_eq!(s.extension, None);
    let s = ServiceRef::parse("service S extends T{void f()}").unwrap().1;
    assert_eq!(s.extension, Some(IdentifierRef::from("T")));
    assert_eq!(s.functions.len(), 1);
}

#[test]
fn owned_definitions_are_what_the_borrowed_ones_are() {
    let text = "// doc\nconst list<i32> xs = [1, 2] ; rest";
    let (rest, borrowed) = ConstRef::parse(text).unwrap();
    let (owned_rest, owned) = Const::parse(text).unwrap();
    assert_eq!(rest, owned_rest);
    assert_eq!(Const::from(borrowed.clone()), owned);
    assert_eq!(Const::copy_of(&borrowed), owned);

    let text = "/* d */\ntypedef map<string, i64> M";
    let (_, borrowed) = TypedefRef::parse(text).unwrap();
    assert_eq!(Typedef::from(borrowed), Typedef::parse(text).unwrap().1);

    let text = "enum PL { Rust Go=2 , Cpp = 3 }";
    let (_, borrowed) = EnumRef::parse(text).unwrap();
    let owned = Enum::parse(text).unwrap().1;
    assert_eq!(Enum::from(borrowed.clone()), owned);
    assert_eq!(owned.children.len(), 3);
    assert_eq!(owned.children[1].name.as_str(), "Go");
    assert_eq!(owned.children[1].value, Some(IntConstant(2)));
    assert_eq!(EnumValue::copies_of(&borrowed.children), owned.children);

    let text = "struct user{1:optional string name; 2:i32 age=18}";
    let (_, borrowed) = StructRef::parse(text).unwrap();
    assert_eq!(Struct::from(borrowed), Struct::parse(text).unwrap().1);
    let text = "union u{1:string name; 2:i32 age}";
    let (_, borrowed) = UnionRef::parse(text).unwrap();
    assert_eq!(Union::from(borrowed), Union::parse(text).unwrap().1);
    let text = "exception e{1:string why}";
    let (_, borrowed) = ExceptionRef::parse(text).unwrap();
    assert_eq!(Exception::from(borrowed), Exception::parse(text).unwrap().1);

    let text = "service DemoService extends BaseService { string GetUser(required string name),\n string GetUser(required string name) }";
    let (_, borrowed) = ServiceRef::parse(text).unwrap();
    let owned = Service::parse(text).unwrap().1;
    assert_eq!(Service::from(borrowed), owned);
    assert_eq!(owned.name.as_str(), "DemoService");
    assert_eq!(owned.extension.as_ref().unwrap().as_str(), "BaseService");
    assert_eq!(owned.functions.len(), 2);
    assert_eq!(owned.functions[0], owned.functions[1]);
    assert_eq!(owned.functions[0].name.as_str(), "GetUser");
}

#[test]
fn owned_node_outlives_the_input() {
    let owned = {
        let text = String::from("typedef list<Thing> Things");
        Typedef::parse(&text).unwrap().1
    };
    assert_eq!(owned.alias.as_str(), "Things");
    assert_eq!(owned.old, thrift_parser::types::FieldType::from(FieldTypeRef::List(Box::new(
        FieldTypeRef::Identifier(IdentifierRef::from("Thing"))
    ))));
}

#[test]
fn definitions_follow_one_another() {
    let text = "const i32 a = 1;\ntypedef i32 T\nenum E { A }\nstruct S {}\n";
    let (rest, _) = ConstRef::parse(text).unwrap();
    assert_eq!(rest, "\ntypedef i32 T\nenum E { A }\nstruct S {}\n");
    let (rest, t) = TypedefRef::parse(&rest[1..]).unwrap();
    assert_eq!(t.alias.as_str(), "T");
    let (rest, e) = EnumRef::parse(&rest[1..]).unwrap();
    assert_eq!(e.children.len(), 1);
    let (rest, s) = StructRef::parse(&rest[1..]).unwrap();
    assert_eq!(s.name.as_str(), "S");
    assert_eq!(rest, "\n");
}

#[test]
fn text_that_is_not_ascii_stays_whole() {
    let (rest, c) = ConstRef::parse("// größe\nconst string s = 'äöü' ;é").unwrap();
    assert_eq!(c.doc_comment.unwrap().as_str(), " größe");
    assert_eq!(rest, "é");
    let e = ConstRef::parse("const string é = 1").unwrap_err();
    assert_eq!(e.input, "const string é = 1");
    assert_eq!(e.kind, FailureKind::Incomplete);
    let (rest, s) = StructRef::parse("struct S { /* ☃ */ i32 a # ☃\n }☃").unwrap();
    assert_eq!(s.fields.len(), 1);
    assert_eq!(rest, "☃");
}

#[test]
fn a_service_as_it_is_written() {
    let text = "/**\n * Looks users up.\n */\nservice UserStore extends shared.Base {\n";
    assert_eq!(ServiceRef::parse(text).unwrap_err().kind, FailureKind::Incomplete);
    let text = "/** Looks users up. */\n\
service UserStore extends Base {\n\
  // by id\n\
  User get(1: i64 id) throws (1: NotFound missing, 2: Denied denied),\n\
  /* all of them */\n\
  list<User> all();\n\
  oneway void forget(1: i64 id, 2: optional bool now = 1)\n\
  map<string, list<i32>> index ( ) throws ( Oops e )\n\
}\nafter";
    let (rest, service) = ServiceRef::parse(text).unwrap();
    assert_eq!(rest, "\nafter");
    assert_eq!(service.doc_comment, Some(CommentRef::from("* Looks users up. ")));
    assert_eq!(service.name.as_str(), "UserStore");
    assert_eq!(service.extension, Some(IdentifierRef::from("Base")));
    let names: Vec<&str> = service.functions.iter().map(|f| f.name.as_str()).collect();
    assert_eq!(names, vec!["get", "all", "forget", "index"]);
    assert_eq!(service.functions[0].exceptions.as_ref().unwrap().len(), 2);
    assert_eq!(service.functions[1].parameters.len(), 0);
    assert_eq!(service.functions[1].exceptions, None);
    assert!(service.functions[2].oneway);
    assert_eq!(service.functions[2].returns, None);
    assert_eq!(service.functions[2].parameters[1].required, Some(false));
    assert_eq!(
        service.functions[2].parameters[1].default,
        Some(ConstValueRef::Int(IntConstant(1)))
    );
    assert_eq!(
        service.functions[3].returns,
        Some(FieldTypeRef::MapOf(
            Box::new(FieldTypeRef::String),
            Box::new(FieldTypeRef::List(Box::new(FieldTypeRef::I32)))
        ))
    );
    let owned = Service::from(service.clone());
    assert_eq!(owned, Service::parse(text).unwrap().1);
    assert_eq!(owned.functions.len(), 4);
}

#[test]
fn any_separator_may_stand_for_another() {
    let plain = "struct S { 1: i32 a = 1, 2: list<string> b }";
    let node = StructRef::parse(plain).unwrap().1;
    let separators = [" ", "\t", "\n", "\r\n", "  \n  ", "/* c */", " // c\n", "#c\n", " /**/ "];
    let gaps: Vec<usize> = plain.match_indices(' ').map(|(i, _)| i).collect();
    for gap in gaps {
        for separator in separators {
            let changed = format!("{}{}{}", &plain[..gap], separator, &plain[gap + 1..]);
            let (rest, parsed) = StructRef::parse(&changed).unwrap();
            assert_eq!(parsed, node);
            assert_eq!(rest, "");
        }
    }
}

#[test]
fn parsing_at_a_position() {
    let text = "xx const i32 a = 1; typedef i32 T";
    let (c, end) = ConstRef::parse_at(text, 3).unwrap();
    assert_eq!(c.name.as_str(), "a");
    assert_eq!(&text[end..], " typedef i32 T");
    let (t, end) = TypedefRef::parse_at(text, end + 1).unwrap();
    assert_eq!(t.alias.as_str(), "T");
    assert_eq!(end, text.len());
    assert_eq!(ConstRef::parse_at(text, 0).unwrap_err(), FailureKind::NoMatch);
    assert_eq!(ConstRef::parse_at(text, text.len()).unwrap_err(), FailureKind::NoMatch);
    assert_eq!(ConstRef::parse_at(text, usize::MAX).unwrap_err(), FailureKind::NoMatch);
    assert_eq!(StructRef::parse_at("struct S {", 0).unwrap_err(), FailureKind::Incomplete);
    assert_eq!(ServiceRef::parse_at("service", usize::MAX).unwrap_err(), FailureKind::NoMatch);
    assert_eq!(EnumRef::parse_at("enum E {}", 1).unwrap_err(), FailureKind::NoMatch);
    assert!(thrift_parser::field::FieldRef::parse_at("i32 a", usize::MAX).is_none());
    assert!(thrift_parser::functions::FunctionRef::parse_at("void f()", 9).is_none());
    assert!(ConstValueRef::parse_at("[1]", usize::MAX).is_none());
    assert!(FieldTypeRef::parse_at("i32", 4).is_none());
    assert!(IntConstant::parse_at(b"12", usize::MAX).is_none());
}
