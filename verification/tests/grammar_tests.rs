use typarse::ast::{primitive_of, PrimitiveType, Ty};
use typarse::context::ParsingContext;
use typarse::literals::{IdentParser, IdentParserErrReason, NumberParseErr, NumberParser};
use typarse::parser::Parser;
use typarse::types::{Type, TypeParserErr};

fn user(name: &str) -> Ty {
    Ty::Userdefined(name.to_string())
}

#[test]
fn round_trip_generic_of_primitive_name() {
    let t = Type.run_parser("Vec<i32>").unwrap();
    assert_eq!(t, Ty::Generic("Vec".to_string(), vec![user("i32")]));
}

#[test]
fn round_trip_reference() {
    let t = Type.run_parser("&i32").unwrap();
    assert_eq!(t, Ty::Ref(Box::new(user("i32"))));
}

#[test]
fn round_trip_double_pointer() {
    let t = Type.run_parser("**SomeStruct").unwrap();
    assert_eq!(t, Ty::Ptr(Box::new(Ty::Ptr(Box::new(user("SomeStruct"))))));
}

#[test]
fn round_trip_nested_generic_arguments() {
    let t = Type.run_parser("Pair<&i32, *&Mike>").unwrap();
    assert_eq!(
        t,
        Ty::Generic(
            "Pair".to_string(),
            vec![
                Ty::Ref(Box::new(user("i32"))),
                Ty::Ptr(Box::new(Ty::Ref(Box::new(user("Mike"))))),
            ],
        ),
    );
}

#[test]
fn whitespace_skipping_is_idempotent() {
    let mut padded = ParsingContext::new("  i32  ");
    let mut bare = ParsingContext::new("i32");
    let t1 = Type.parse(&mut padded).unwrap();
    let t2 = Type.parse(&mut bare).unwrap();
    assert_eq!(t1, t2);
    assert_eq!(padded.cursor, bare.cursor);
    assert_eq!(padded.cursor, "");
}

#[test]
fn no_partial_tree_on_malformed_input() {
    let t = Type;
    assert!(t.run_parser("").is_err());
    assert!(t.run_parser("3x").is_err());
    assert!(t.run_parser("____").is_err());
    assert!(t.run_parser("&").is_err());
    assert!(t.run_parser("& & *").is_err());
    assert!(t.run_parser("<i32>").is_err());
}

#[test]
fn malformed_generics_fall_back_to_the_plain_name() {
    // A failed bracket group is rolled back entirely: the parse
    // succeeds with the plain name and the group stays unconsumed.
    let mut ctx = ParsingContext::new("Vec<3>");
    let t = Type.parse(&mut ctx).unwrap();
    assert_eq!(t, user("Vec"));
    assert_eq!(ctx.cursor, "<3>");
    // An empty argument list is a grammar error, not a valid node.
    let mut ctx2 = ParsingContext::new("Vec<>");
    let t2 = Type.parse(&mut ctx2).unwrap();
    assert_eq!(t2, user("Vec"));
    assert_eq!(ctx2.cursor, "<>");
    // A dangling comma inside the brackets also rolls the group back.
    let t3 = Type.run_parser("Pair<i32,>").unwrap();
    assert_eq!(t3, user("Pair"));
}

#[test]
fn type_error_variants() {
    assert!(matches!(Type.run_parser(""), Err(TypeParserErr::EmptyStr)));
    assert!(matches!(Type.run_parser("3x"), Err(TypeParserErr::InvalidFormat(_))));
    assert!(matches!(Type.run_parser("a\u{e9}"), Err(TypeParserErr::ContainsUnicode(_))));
}

#[test]
fn keyword_is_tolerated_as_a_type_name() {
    let t = Type.run_parser("def").unwrap();
    assert_eq!(t, user("def"));
}

#[test]
fn ident_error_reasons() {
    let ip = IdentParser;
    match ip.run_parser("3asd") {
        Err(e) => assert_eq!(e.reason, IdentParserErrReason::IllicitChar('3')),
        Ok(v) => panic!("expected an error, got {:?}", v),
    }
    match ip.run_parser("____") {
        Err(e) => {
            assert_eq!(e.reason, IdentParserErrReason::NoAlphaNum);
            assert_eq!(e.found, "____");
        },
        Ok(v) => panic!("expected an error, got {:?}", v),
    }
    match ip.run_parser("def") {
        Err(e) => assert_eq!(e.reason, IdentParserErrReason::FoundKeyword),
        Ok(v) => panic!("expected an error, got {:?}", v),
    }
    match ip.run_parser("") {
        Err(e) => assert_eq!(e.reason, IdentParserErrReason::EmptyInp),
        Ok(v) => panic!("expected an error, got {:?}", v),
    }
    assert_eq!(ip.run_parser("  x7_y  ").unwrap(), "x7_y");
}

#[test]
fn number_overflow_kinds_and_text() {
    let np = NumberParser {};
    match np.run_parser("2147483648") {
        Err(NumberParseErr::PosOverflow(d)) => assert_eq!(d.2, "2147483648"),
        r => panic!("expected a positive overflow, got {:?}", r),
    }
    match np.run_parser("-2147483649") {
        Err(NumberParseErr::NegOverflow(d)) => assert_eq!(d.2, "-2147483649"),
        r => panic!("expected a negative overflow, got {:?}", r),
    }
    assert!(matches!(np.run_parser("-"), Err(NumberParseErr::EmptyStr)));
    assert_eq!(np.run_parser("007"), Ok(7));
    assert_eq!(np.run_parser("5-3"), Ok(5));
}

#[test]
fn primitive_name_lookup() {
    assert_eq!(primitive_of("i32"), Some(PrimitiveType::SInt32));
    assert_eq!(primitive_of("u128"), Some(PrimitiveType::UInt128));
    assert_eq!(primitive_of("bool"), Some(PrimitiveType::Bool));
    assert_eq!(primitive_of("()"), Some(PrimitiveType::Unit));
    assert_eq!(primitive_of("i31"), None);
    assert_eq!(primitive_of(""), None);
}
