use thrift_parser::definition::{ConstRef, EnumRef, ServiceRef, StructRef, TypedefRef};
use thrift_parser::lexical::{scan_comment, scan_to_byte, skip_separators};

fn is_ident_char(b: u8) -> bool {
    b.is_ascii_alphanumeric() || b == b'_'
}

/// Whether the bytes on both sides of `g` would run together if they touched.
fn apart(text: &[u8], g: usize) -> bool {
    if g == 0 || g >= text.len() {
        return true;
    }
    let before = text[g - 1];
    let behind = text[g];
    !(is_ident_char(before) && is_ident_char(behind))
        && before != b'.'
        && behind != b'.'
        && !((before == b'+' || before == b'-') && behind.is_ascii_digit())
        && !((behind == b'+' || behind == b'-') && (before == b'e' || before == b'E'))
}

/// The places behind `from` that lie between two pieces of the text, and at
/// which whitespace and comments may be put in: at the start of a separator,
/// or where two pieces touch that do not run together.
fn places(text: &str, from: usize) -> Vec<usize> {
    let bytes = text.as_bytes();
    let mut found = Vec::new();
    let mut at = from;
    let mut behind_line_comment = false;
    loop {
        if !behind_line_comment && at <= bytes.len() {
            let has_separator = skip_separators(bytes, at) > at;
            if has_separator || apart(bytes, at) {
                found.push(at);
            }
        }
        if at >= bytes.len() {
            break;
        }
        behind_line_comment = false;
        let byte = bytes[at];
        if byte == b' ' || byte == b'\t' || byte == b'\n' || byte == b'\r' {
            at += 1;
        } else if byte == b'/' || byte == b'#' {
            match scan_comment(bytes, at) {
                Some((_, _, end)) => {
                    behind_line_comment = byte == b'#' || bytes[at + 1] == b'/';
                    at = end;
                }
                None => break,
            }
        } else if byte == b'"' || byte == b'\'' {
            match scan_to_byte(bytes, at + 1, byte as char) {
                Some(close) => at = close + 1,
                None => break,
            }
        } else {
            at += 1;
        }
    }
    found
}

const SEPARATORS: [&str; 8] = [" ", "\t", "\n", "\r\n", " /* c */ ", "// c\n", "# c\r\n", "/**/"];

fn with_separator(text: &str, at: usize, separator: &str) -> String {
    format!("{}{}{}", &text[..at], separator, &text[at..])
}

#[test]
fn separators_put_into_a_const_change_nothing() {
    let text = "const map<string,list<i32>> m={'a':[1,-2],\"b\":[]};rest";
    let (rest, node) = ConstRef::parse(text).unwrap();
    let end = text.len() - rest.len();
    let places = places(text, "const".len());
    assert!(places.len() > 20);
    for at in places {
        for separator in SEPARATORS {
            let changed = with_separator(text, at, separator);
            let (changed_rest, parsed) = ConstRef::parse(&changed).unwrap();
            assert_eq!(parsed, node, "at {} in {:?}", at, changed);
            let moved = if at < end { separator.len() } else { 0 };
            assert_eq!(changed.len() - changed_rest.len(), end + moved);
        }
    }
}

#[test]
fn separators_put_into_a_typedef_change_nothing() {
    let text = "typedef map<string,set<Thing>> Things";
    let node = TypedefRef::parse(text).unwrap().1;
    let places = places(text, "typedef".len());
    assert!(places.len() > 10);
    for at in places {
        for separator in SEPARATORS {
            let changed = with_separator(text, at, separator);
            let parsed = TypedefRef::parse(&changed).unwrap().1;
            assert_eq!(parsed, node, "at {} in {:?}", at, changed);
        }
    }
}

#[test]
fn separators_put_into_an_enum_change_nothing() {
    let text = "enum PL{Rust Go=2,Cpp=-3;D}";
    let node = EnumRef::parse(text).unwrap().1;
    let places = places(text, "enum".len());
    assert!(places.len() > 10);
    for at in places {
        for separator in SEPARATORS {
            let changed = with_separator(text, at, separator);
            let parsed = EnumRef::parse(&changed).unwrap().1;
            assert_eq!(parsed, node, "at {} in {:?}", at, changed);
        }
    }
}

#[test]
fn separators_put_into_a_struct_change_nothing() {
    let text = "struct user{1:optional string name='x'; 2:i32 age=18, required list<i8> l=[1] /* c */ }";
    let node = StructRef::parse(text).unwrap().1;
    let places = places(text, "struct".len());
    assert!(places.len() > 30);
    for at in places {
        for separator in SEPARATORS {
            let changed = with_separator(text, at, separator);
            let parsed = StructRef::parse(&changed).unwrap().1;
            assert_eq!(parsed, node, "at {} in {:?}", at, changed);
        }
    }
}

#[test]
fn separators_put_into_a_service_change_nothing() {
    let text = "service S extends B{oneway void f(1:i32 a,2:throws b)throws(E e), throws g(), list<i32> h()throws(1:E e;F f)}";
    let node = ServiceRef::parse(text).unwrap().1;
    let places = places(text, "service".len());
    assert!(places.len() > 40);
    for at in places {
        for separator in SEPARATORS {
            let changed = with_separator(text, at, separator);
            let parsed = ServiceRef::parse(&changed).unwrap().1;
            assert_eq!(parsed, node, "at {} in {:?}", at, changed);
        }
    }
}

#[test]
fn pieces_that_run_together_may_not_be_parted() {
    assert!(!apart(b"ab", 1));
    assert!(!apart(b"1.5", 1));
    assert!(!apart(b"1.5", 2));
    assert!(!apart(b"-1", 1));
    assert!(!apart(b"1e+5", 2));
    assert!(apart(b"a=1", 1));
    assert!(apart(b"a=1", 2));
    assert!(apart(b"=-1", 1));
    let with_points = places("const double d = 1.5", 5);
    assert!(!with_points.contains(&18));
    assert!(!with_points.contains(&19));
    assert!(with_points.contains(&17));
}
