use lumi::parser::{expr, lex, parse, Token};

fn kinds(src: &str) -> Vec<String> {
    lex(src).0.iter().map(|(t, s)| format!("{}@{}..{}", t.to_string(), s.start, s.end)).collect()
}

fn parse_ok(src: &str) -> String {
    let (e, errors) = parse(src);
    assert!(errors.is_empty(), "errors for {src}: {errors:?}");
    e.expect("an expression").print()
}

#[test]
fn lexes_keywords_names_and_numbers_with_byte_spans() {
    assert_eq!(
        kinds("let x = 5 in x"),
        vec!["let@0..3", "x@4..5", "=@6..7", "5@8..9", "in@10..12", "x@13..14"]
    );
    let (tokens, errors) = lex("letx Foo_1 _y");
    assert!(errors.is_empty());
    assert!(matches!(&tokens[0].0, Token::Lower(s) if s == "letx"));
    assert!(matches!(&tokens[1].0, Token::Upper(s) if s == "Foo_1"));
    assert!(matches!(tokens[2].0, Token::Underscore));
    assert!(matches!(&tokens[3].0, Token::Lower(s) if s == "y"));
}

#[test]
fn lexes_arrows_negative_numbers_and_comments() {
    assert_eq!(kinds("-42 -> --comment\nx"), vec!["-42@0..3", "->@4..6", "x@17..18"]);
    assert_eq!(kinds("=> = ; , |"), vec!["=>@0..2", "=@3..4", ";@5..6", ",@7..8", "|@9..10"]);
    let (tokens, _) = lex("-9223372036854775808");
    assert!(matches!(tokens[0].0, Token::Int(i64::MIN)));
}

#[test]
fn lexes_string_literals_without_processing_escapes() {
    let (tokens, errors) = lex("\"a\\\"b\" \"é\"");
    assert!(errors.is_empty());
    assert!(matches!(&tokens[0].0, Token::Str(s) if s == "a\\\"b"));
    assert_eq!((tokens[0].1.start, tokens[0].1.end), (0, 6));
    assert!(matches!(&tokens[1].0, Token::Str(s) if s == "é"));
    assert_eq!((tokens[1].1.start, tokens[1].1.end), (7, 11));
}

#[test]
fn lex_errors_carry_byte_spans() {
    let (tokens, errors) = lex("a # é b");
    assert_eq!(errors, vec!["unexpected character at 2..3", "unexpected character at 4..6"]);
    assert_eq!(tokens.len(), 2);
    assert_eq!((tokens[1].1.start, tokens[1].1.end), (7, 8));
    let (_, errors) = lex("99999999999999999999 \"open");
    assert_eq!(errors, vec!["unexpected character at 0..20", "unexpected character at 21..22"]);
}

#[test]
fn parses_let_lambda_application() {
    assert_eq!(parse_ok("let id = \\x -> x in id 42"), "let id = λx.x in id 42\n");
    assert_eq!(parse_ok("f a b"), "(f a) b\n");
    assert_eq!(parse_ok("f (g a) b"), "(f (g a)) b\n");
}

#[test]
fn parses_the_map_function() {
    let src = r#"\f -> \xs -> match xs {
            | Nil => Nil()
            | Cons(h, t) => Cons(f h, (map f) t)
            }"#;
    assert_eq!(
        parse_ok(src),
        "λf.λxs.match xs with Nil -> Nil | Cons(h, t) -> Cons(f h, (map f) t)\n"
    );
}

#[test]
fn parses_foreign_calls_and_unit() {
    assert_eq!(
        parse_ok("\\x -> foreign(int_add; x, foreign(lumi_int1;))"),
        "λx.foreign(int_add; x, foreign(lumi_int1))\n"
    );
    assert_eq!(parse_ok("foreign(println; ())"), "foreign(println; ())\n");
    assert_eq!(parse_ok("foreign \"add\"(x, y)"), "foreign(add; x, y)\n");
}

#[test]
fn parses_the_main_of_the_map_example() {
    let src = "let inp = Cons(1, Cons(0, Nil()))
        in let l = foreign(println; inp)
        in let mapinc = map inc
        in let out = mapinc inp
        in let p = foreign(println; out)
        in foreign(println; ())";
    let (e, errors) = parse(src);
    assert!(errors.is_empty());
    assert_eq!(
        e.unwrap().print(),
        "let inp = Cons(1, Cons(0, Nil)) in let l = foreign(println; inp) in let mapinc = map inc \
         in let out = mapinc inp in let p = foreign(println; out) in foreign(println; ())\n"
    );
}

#[test]
fn parses_if_match_patterns_and_trailing_commas() {
    assert_eq!(parse_ok("if c then 1 else -1"), "if c then 1 else -1\n");
    assert_eq!(
        parse_ok("match xs { | Nil => 0 | Cons(h, _) => h | 3 => y }"),
        "match xs with Nil -> 0 | Cons(h, _) -> h | 3 -> y\n"
    );
    assert_eq!(parse_ok("Cons(1, 2,)"), "Cons(1, 2)\n");
    assert_eq!(parse_ok("match p { | Pair(a, b,) => a }"), "match p with Pair(a, b) -> a\n");
}

#[test]
fn parse_errors_name_the_token_where_reading_stopped() {
    let (e, errors) = parse("let x = in x");
    assert!(e.is_none());
    assert_eq!(errors, vec!["unexpected `in` at 8..10"]);
    let (e, errors) = parse("f (");
    assert!(e.is_none());
    assert_eq!(errors, vec!["unexpected end of input"]);
    let (e, errors) = parse("x y )");
    assert!(e.is_none());
    assert_eq!(errors, vec!["unexpected `)` at 4..5"]);
}

#[test]
fn lexer_errors_do_not_stop_parsing() {
    let (e, errors) = parse("x # y");
    assert_eq!(e.unwrap().print(), "x y\n");
    assert_eq!(errors, vec!["unexpected character at 2..3"]);
}

#[test]
fn expr_reads_one_expression_from_a_position() {
    let (tokens, _) = lex("( a b ) c");
    match expr(&tokens, 1) {
        Ok((e, next)) => {
            assert_eq!(e.print(), "a b\n");
            assert_eq!(next, 3);
        }
        Err(k) => panic!("failed at {k}"),
    }
    assert_eq!(expr(&tokens, 3).err(), Some(3));
}

#[test]
fn tokens_write_back_as_text() {
    assert_eq!(Token::Int(-5).to_string(), "-5");
    assert_eq!(Token::Lower("abc".into()).to_string(), "abc");
    assert_eq!(Token::LBrace.to_string(), "{");
    assert_eq!(Token::Backslash.to_string(), "\\");
    assert_eq!(Token::Error.to_string(), "<error>");
}

#[test]
fn empty_input_and_trailing_comments() {
    let (e, errors) = parse("");
    assert!(e.is_none());
    assert_eq!(errors, vec!["unexpected end of input"]);
    assert_eq!(kinds("x --"), vec!["x@0..1"]);
    assert_eq!(kinds("x -- note\n-- more\ny"), vec!["x@0..1", "y@18..19"]);
}
