use typarse::combinators::{
    AttemptParser, CharParseErr, CharParser, ManyParser, OptionParser, RawCharParser,
    RawStringParser, SepBy1Parser, SepByParser, StringParser, StringParseErr,
};
use typarse::context::{str_eq, ParsingContext};
use typarse::literals::NumberParser;
use typarse::parser::{discard_then, then_discard, DoubleParser, Parser, ParserErr};

#[test]
fn context_new_skips_leading_whitespace() {
    let ctx = ParsingContext::new(" \n def");
    assert_eq!(ctx.index, 3);
    assert_eq!(ctx.row, 2);
    assert_eq!(ctx.col, 2);
    assert_eq!(ctx.cursor, "def");
    assert_eq!(ctx.input, " \n def");
}

#[test]
fn context_peek_and_eat_many() {
    let mut ctx = ParsingContext::new("ab cd");
    assert_eq!(ctx.peek_char(), Some('a'));
    assert_eq!(ctx.eat_many(2), Some("ab"));
    assert_eq!(ctx.cursor, " cd");
    // Not enough input left: nothing is consumed.
    assert_eq!(ctx.eat_many(5), None);
    assert_eq!(ctx.cursor, " cd");
    let mut empty = ParsingContext::new("");
    assert_eq!(empty.peek_char(), None);
}

#[test]
fn context_eat_until_ws_and_eat_ws() {
    let mut ctx = ParsingContext::new("foo bar");
    assert_eq!(ctx.eat_until_ws(), "foo");
    assert_eq!(ctx.cursor, " bar");
    assert_eq!(ctx.col, 4);
    ctx.eat_ws();
    assert_eq!(ctx.cursor, "bar");
    // Running off the end of the input while still in non-whitespace
    // stops cleanly at the end.
    assert_eq!(ctx.eat_until_ws(), "bar");
    assert_eq!(ctx.cursor, "");
    ctx.eat_ws();
    assert_eq!(ctx.cursor, "");
}

#[test]
fn context_rollback_restores_all_four_components() {
    let mut ctx = ParsingContext::new("one\ntwo");
    let snapshot = ctx.current_state();
    ctx.eat_many(4);
    assert_eq!(ctx.row, 2);
    ctx.roll_back_op(snapshot);
    assert_eq!(ctx.current_state(), snapshot);
}

#[test]
fn context_keyword_table() {
    let ctx = ParsingContext::new("");
    assert!(ctx.contains_keyword("def"));
    assert!(ctx.contains_keyword("for"));
    assert!(ctx.contains_keyword("if"));
    assert!(ctx.contains_keyword("else"));
    assert!(!ctx.contains_keyword("deff"));
    assert!(!ctx.contains_keyword(""));
    assert!(str_eq("abc", "abc"));
    assert!(!str_eq("abc", "abd"));
}

#[test]
fn attempt_rolls_back_failed_parse() {
    let mut ctx = ParsingContext::new(" x123");
    let before = ctx.current_state();
    let at = AttemptParser::new(RawStringParser::new("abc"));
    assert!(at.parse(&mut ctx).is_err());
    // Byte index, row, col and remaining-input view are all restored.
    assert_eq!(ctx.current_state(), before);
}

#[test]
fn raw_string_consumes_on_mismatch() {
    let mut ctx = ParsingContext::new("x123");
    let rp = RawStringParser::new("abc");
    assert!(rp.parse(&mut ctx).is_err());
    assert_eq!(ctx.cursor, "3");
}

#[test]
fn raw_char_errors() {
    let p = RawCharParser::new('a');
    assert_eq!(p.run_parser(""), Err(CharParseErr::Empty));
    let mut ctx = ParsingContext::new("b");
    assert_eq!(p.parse(&mut ctx), Err(CharParseErr::CharMismatch('a', 'b')));
    // A mismatched character is not consumed.
    assert_eq!(ctx.cursor, "b");
    assert_eq!(p.run_parser("a"), Ok('a'));
}

#[test]
fn char_parser_eats_trailing_whitespace() {
    let mut ctx = ParsingContext::new("<  x");
    let p = CharParser::new('<');
    assert_eq!(p.parse(&mut ctx), Ok('<'));
    assert_eq!(ctx.cursor, "x");
}

#[test]
fn string_parser_short_input_reports_remaining_text() {
    // Too little input left to compare: the mismatch carries the whole
    // remaining text and nothing is consumed.
    let rp = RawStringParser::new("abc");
    let mut ctx = ParsingContext::new("a");
    assert_eq!(
        rp.parse(&mut ctx),
        Err(StringParseErr::StringMismatch("abc", "a".to_string())),
    );
    assert_eq!(ctx.cursor, "a");
    let sp = StringParser::new("abc");
    assert_eq!(
        sp.run_parser("a"),
        Err(StringParseErr::StringMismatch("abc", "a".to_string())),
    );
}

#[test]
fn string_parser_keyword_extends_found_text() {
    let sp = StringParser::new("def");
    match sp.run_parser("def_") {
        Err(StringParseErr::StringMismatch(expected, found)) => {
            assert_eq!(expected, "def");
            assert_eq!(found, "def_");
        },
        r => panic!("expected a string mismatch, got {:?}", r),
    }
    // A non-continuation boundary is fine.
    assert_eq!(sp.run_parser("def>"), Ok("def"));
}

#[test]
fn many_parser_collects_consecutive_matches() {
    let mut ctx = ParsingContext::new("ab ab x");
    let mp = ManyParser::new(StringParser::new("ab"));
    assert_eq!(mp.parse(&mut ctx), Ok(vec!["ab", "ab"]));
    assert_eq!(ctx.cursor, "x");
}

#[test]
fn many_parser_accepts_zero_matches() {
    let mut ctx = ParsingContext::new("xy");
    let before = ctx.current_state();
    let mp = ManyParser::new(StringParser::new("ab"));
    assert_eq!(mp.parse(&mut ctx), Ok(vec![]));
    assert_eq!(ctx.current_state(), before);
}

#[test]
fn sep_by_parses_separated_list() {
    let sp = SepByParser::new(NumberParser {}, CharParser::new(','));
    assert_eq!(sp.run_parser("1 , 2 , 3"), Ok(vec![1, 2, 3]));
    assert_eq!(sp.run_parser("7"), Ok(vec![7]));
}

#[test]
fn sep_by_empty_cases_consume_nothing() {
    let sp = SepByParser::new(NumberParser {}, CharParser::new(','));
    // Zero-width input gives an empty list.
    let mut ctx = ParsingContext::new("");
    assert_eq!(sp.parse(&mut ctx), Ok(vec![]));
    assert_eq!(ctx.index, 0);
    // Input starting with a delimiter-shaped token but no leading
    // element gives an empty list without consuming input.
    let mut ctx2 = ParsingContext::new(",5");
    let before = ctx2.current_state();
    assert_eq!(sp.parse(&mut ctx2), Ok(vec![]));
    assert_eq!(ctx2.current_state(), before);
}

#[test]
fn sep_by_dangling_delimiter_is_an_error() {
    let sp = SepByParser::new(NumberParser {}, CharParser::new(','));
    assert!(sp.run_parser("1, 2,").is_err());
}

#[test]
fn sep_by1_requires_a_first_element() {
    let sp = SepBy1Parser::new(NumberParser {}, CharParser::new(','));
    assert_eq!(sp.run_parser("5"), Ok(vec![5]));
    assert_eq!(sp.run_parser("4, 5, 6"), Ok(vec![4, 5, 6]));
    assert!(sp.run_parser("").is_err());
    assert!(sp.run_parser(", 5").is_err());
}

#[test]
fn sequencing_keeps_the_right_result() {
    let td = then_discard(NumberParser {}, StringParser::new("ab"));
    assert_eq!(td.run_parser("12 ab").unwrap(), 12);
    assert!(td.run_parser("12 cd").is_err());
    let dt = discard_then(StringParser::new("ab"), NumberParser {});
    assert_eq!(dt.run_parser("ab 12").unwrap(), 12);
    assert!(dt.run_parser("cd 12").is_err());
}

#[test]
fn option_parser_to_option() {
    let o = OptionParser::new(NumberParser {});
    let mut ctx = ParsingContext::new("17 rest");
    assert_eq!(o.parse_to_option(&mut ctx), Some(17));
    assert_eq!(ctx.cursor, "rest");
    let mut ctx2 = ParsingContext::new("rest");
    assert_eq!(o.parse_to_option(&mut ctx2), None);
    assert_eq!(ctx2.cursor, "rest");
}

#[test]
fn error_labels_name_the_failing_kind() {
    let np = NumberParser {};
    match np.run_parser("asd") {
        Err(e) => assert_eq!(e.label(), "number"),
        Ok(v) => panic!("expected an error, got {:?}", v),
    }
}

#[test]
fn type_span_respects_bracket_nesting() {
    let mut ctx = ParsingContext::new("Vec<i32, &x>) rest");
    assert_eq!(ctx.consume_type_span(), Some("Vec<i32, &x>"));
    assert_eq!(ctx.cursor, ") rest");
}

#[test]
fn type_span_stops_at_stop_characters() {
    let mut ctx = ParsingContext::new("x -y");
    assert_eq!(ctx.consume_type_span(), Some("x "));
    assert_eq!(ctx.cursor, "-y");
    let mut at_end = ParsingContext::new("Pair<a,b>");
    assert_eq!(at_end.consume_type_span(), Some("Pair<a,b>"));
    assert_eq!(at_end.cursor, "");
}

#[test]
fn type_span_rejects_bad_input() {
    // Unbalanced brackets at the stop point.
    let mut ctx = ParsingContext::new("Vec<i32)");
    assert_eq!(ctx.consume_type_span(), None);
    assert_eq!(ctx.cursor, "Vec<i32)");
    // A tab is a disallowed character.
    let mut tabbed = ParsingContext::new("a\tb");
    assert_eq!(tabbed.consume_type_span(), None);
    assert_eq!(tabbed.cursor, "a\tb");
}

#[test]
fn double_parser_pairs_both_results() {
    let dp = DoubleParser::new(NumberParser {}, StringParser::new("ab"));
    assert_eq!(dp.run_parser("12 ab").unwrap(), (12, "ab"));
    assert!(dp.run_parser("xy ab").is_err());
    assert!(dp.run_parser("12 xy").is_err());
}
