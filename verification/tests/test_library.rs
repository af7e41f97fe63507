use interpreter::ast::{Expr, ExprKind, Program, Statement, StmtKind};
use interpreter::grammar::{ExprParser, ParseError, ProgramParser};
use interpreter::highlighter::{style_for_token, TokenStyle, WirthianHighlighter};
use interpreter::interp::{Interpreter, RuntimeError};
use interpreter::lexer::{tokenize, LexicalError, Token};
use interpreter::session::{check_source, SourceError};

fn finished(source: &str, input: &str) -> (String, Option<RuntimeError>) {
    match check_source(source) {
        Ok(checked) => {
            let o = checked.run(input);
            (o.output, o.error)
        }
        Err(e) => panic!("not run: {e:?}"),
    }
}

fn highlight(line: &str) -> Vec<(usize, usize, TokenStyle)> {
    let highlighter = WirthianHighlighter;
    let mut state = highlighter.start_highlighter_state();
    state.highlight_line(line)
}

#[test]
fn test_source_prints_output() {
    let (out, err) = finished("integer x; x := 6 * 7; print(x);", "");
    assert_eq!(out, "42");
    assert_eq!(err, None);
}

#[test]
fn test_source_reads_input_lines() {
    let (out, err) = finished(
        "integer a; string s; a := readint; s := readstr; print(a + 1); print(s);",
        "41\nhello\n",
    );
    assert_eq!(out, "42hello");
    assert_eq!(err, None);
}

#[test]
fn test_division_by_zero_stops_an_accepted_program() {
    let (out, err) = finished("integer x; print(1); x := 5 / 0; print(2);", "");
    assert_eq!(out, "1");
    assert_eq!(err, Some(RuntimeError::DivisionByZero));
}

#[test]
fn test_modulo_by_zero_stops_an_accepted_program() {
    let (out, err) = finished("integer x; x := 5 % 0;", "");
    assert_eq!(out, "");
    assert_eq!(err, Some(RuntimeError::DivisionByZero));
}

#[test]
fn test_accepted_programs_never_mismatch_types() {
    let sources = [
        "integer x; boolean b; b := x = 0 and not (x > 1); if b then print(\"yes\") else print(\"no\");",
        "string s; s := concatenate(\"a\", \"b\"); print(s == \"ab\"); print(length(s));",
        "integer i; for i := 1 to 3 do begin if i = 2 then continue; print(i); end;",
        "integer x; x := 7 / 0;",
    ];
    for source in sources {
        let (_, err) = finished(source, "");
        assert_ne!(err, Some(RuntimeError::TypeMismatch));
    }
}

#[test]
fn test_unchecked_program_can_mismatch_types() {
    let ast = ProgramParser::new().parse("integer x; x := \"a\";").expect("parse");
    let mut interp = Interpreter::new(&ast, "");
    assert_eq!(interp.run(&ast), Err(RuntimeError::TypeMismatch));
}

#[test]
fn test_rejected_program_does_not_run() {
    let source = "integer x; integer x; print(1);";
    match check_source(source) {
        Err(SourceError::Rejected { program, errors }) => {
            assert_eq!(program.declarations.len(), 2);
            assert_eq!(errors.errors.len(), 1);
            let e = &errors.errors[0];
            assert_eq!(e.message, "Ponowna deklaracja zmiennej: x");
            assert_eq!(e.source, source);
            assert_eq!(e.labels.len(), 2);
            assert_eq!(e.labels[0].text.as_deref(), Some("Ponowna deklaracja zmiennej: x"));
            assert_eq!(e.labels[0].span, 11..20);
            assert_eq!(e.labels[1].text, None);
            assert_eq!(e.labels[1].span, 0..9);
        }
        _ => panic!("expected the checker to reject the program"),
    }
}

#[test]
fn test_checked_program_runs_on_many_inputs() {
    let checked = check_source("boolean b; b := readbool; print(not b);").expect("accepted");
    assert_eq!(checked.program().instructions.len(), 2);
    let o = checked.run("true\n");
    assert_eq!((o.output.as_str(), o.error), ("false", None));
    assert!(!o.wanted_more_input);
    let o = checked.run("no\n");
    assert_eq!((o.output.as_str(), o.error), ("true", None));
    let o = checked.run("");
    assert_eq!((o.output.as_str(), o.error), ("true", None));
    assert!(o.wanted_more_input);
}

#[test]
fn test_runs_that_find_their_lines_do_not_change_with_more_input() {
    let checked = check_source(
        "integer a; integer b; a := readint; if a > 0 then b := readint; print(a + b);",
    )
    .expect("accepted");
    let short = checked.run("0\n");
    assert!(!short.wanted_more_input);
    assert_eq!(short.output, "0");
    let longer = checked.run("0\n7\n8\n");
    assert_eq!(longer, short);

    let starved = checked.run("5\n");
    assert!(starved.wanted_more_input);
    assert_eq!(starved.output, "5");
    let fed = checked.run("5\n7\n");
    assert!(!fed.wanted_more_input);
    assert_eq!(fed.output, "12");
    assert_eq!(checked.run("5\n7\nmore\n"), fed);
}

#[test]
fn test_source_parse_error() {
    let err = check_source("integer x x := 1;").unwrap_err();
    assert!(matches!(err, SourceError::Parse(ParseError::UnrecognizedToken { .. })));
}

#[test]
fn test_parse_error_at_end_of_input() {
    let err = ProgramParser::new().parse("integer x; x :=").unwrap_err();
    assert_eq!(err, ParseError::UnrecognizedEof { location: 15 });
}

#[test]
fn test_parse_error_from_lexer() {
    let err = ProgramParser::new().parse("print(1 @ 2);").unwrap_err();
    assert_eq!(
        err,
        ParseError::User {
            error: LexicalError::InvalidToken(8..9)
        }
    );
}

#[test]
fn test_runtime_error_messages() {
    assert_eq!(RuntimeError::DivisionByZero.message(), "dzielenie przez zero");
    assert_eq!(RuntimeError::TypeMismatch.message(), "niezgodność typów");
}

#[test]
fn test_token_to_text() {
    assert_eq!(Token::Num(5).to_text(), "Num(5)");
    assert_eq!(Token::Num(-12).to_text(), "Num(-12)");
    assert_eq!(Token::Ident("abc".to_string()).to_text(), "Ident(abc)");
    assert_eq!(
        Token::StringLit("\"hi\"".to_string()).to_text(),
        "StringLit(\"hi\")"
    );
    assert_eq!(Token::Assign.to_text(), "Assign");
    assert_eq!(Token::TypeBoolean.to_text(), "TypeBoolean");
    assert_eq!(Token::LParen.to_text(), "LParen");
}

#[test]
fn test_lexical_error_to_text() {
    assert_eq!(
        LexicalError::InvalidToken(3..4).to_text(),
        "Nieprawidłowy token w zakresie 3..4"
    );
    assert_eq!(
        LexicalError::InvalidToken(120..1234).to_text(),
        "Nieprawidłowy token w zakresie 120..1234"
    );
}

#[test]
fn test_style_for_token() {
    assert_eq!(style_for_token(&Token::Begin), TokenStyle::Keyword);
    assert_eq!(style_for_token(&Token::TypeInteger), TokenStyle::Keyword);
    assert_eq!(style_for_token(&Token::ReadBool), TokenStyle::Keyword);
    assert_eq!(style_for_token(&Token::StringLit("\"a\"".to_string())), TokenStyle::Str);
    assert_eq!(style_for_token(&Token::Num(3)), TokenStyle::Number);
    assert_eq!(style_for_token(&Token::Ident("x".to_string())), TokenStyle::Plain);
    assert_eq!(style_for_token(&Token::Semicolon), TokenStyle::Plain);
}

#[test]
fn test_highlight_line_pieces() {
    assert_eq!(
        highlight("print \"a\" 12;"),
        vec![
            (0, 5, TokenStyle::Keyword),
            (5, 6, TokenStyle::Plain),
            (6, 9, TokenStyle::Str),
            (9, 10, TokenStyle::Plain),
            (10, 12, TokenStyle::Number),
            (12, 13, TokenStyle::Plain),
        ]
    );
}

#[test]
fn test_highlight_line_invalid_text_is_plain() {
    assert_eq!(
        highlight("x @ y"),
        vec![
            (0, 1, TokenStyle::Plain),
            (1, 2, TokenStyle::Plain),
            (2, 3, TokenStyle::Plain),
            (3, 4, TokenStyle::Plain),
            (4, 5, TokenStyle::Plain),
        ]
    );
}

#[test]
fn test_highlight_line_edges() {
    assert_eq!(highlight(""), vec![]);
    assert_eq!(highlight("   "), vec![(0, 3, TokenStyle::Plain)]);
    assert_eq!(
        highlight("end  "),
        vec![(0, 3, TokenStyle::Keyword), (3, 5, TokenStyle::Plain)]
    );
}

#[test]
fn test_highlight_line_counts_bytes() {
    assert_eq!(
        highlight("\"żółw\" x"),
        vec![
            (0, 9, TokenStyle::Str),
            (9, 10, TokenStyle::Plain),
            (10, 11, TokenStyle::Plain),
        ]
    );
}

#[test]
fn test_tokenize_whole_text() {
    let toks = tokenize("x := 10;");
    assert_eq!(
        toks,
        vec![
            Ok((0, Token::Ident("x".to_string()), 1)),
            Ok((2, Token::Assign, 4)),
            Ok((5, Token::Num(10), 7)),
            Ok((7, Token::Semicolon, 8)),
        ]
    );
}

#[test]
fn test_string_escapes_decoded_when_printed() {
    let (out, err) = finished("print(\"a\\tb\\u0041\\n\");", "");
    assert_eq!(out, "a\tbA\n");
    assert_eq!(err, None);
}

#[test]
fn test_expr_parser_literal() {
    let e: Expr = ExprParser::new().parse("\"q\"").expect("parse");
    assert_eq!(e.kind, ExprKind::StringLit("\"q\"".to_string()));
}

#[test]
fn test_exit_stops_the_program() {
    let (out, err) = finished("print(1); exit; print(2);", "");
    assert_eq!(out, "1");
    assert_eq!(err, None);
}

#[test]
fn test_parsed_program_shape() {
    let p: Program = ProgramParser::new().parse("integer x; x := 1;").expect("parse");
    assert_eq!(p.declarations.len(), 1);
    assert_eq!(p.instructions.len(), 1);
    let s: &Statement = &p.instructions[0];
    assert!(matches!(s.kind, StmtKind::Assign(ref id, _) if id == "x"));
}

#[test]
fn test_highlight_pieces_cover_the_line() {
    let lines = [
        "begin x := 1; end",
        "  print(\"a\\\"b\")  ; # ",
        "integer żółw := 12345678901;",
        "if x <> y then print(x) else exit;",
        "",
        "\t",
    ];
    for line in lines {
        let segs = highlight(line);
        if line.is_empty() {
            assert!(segs.is_empty());
            continue;
        }
        assert_eq!(segs[0].0, 0);
        assert_eq!(segs[segs.len() - 1].1, line.len());
        for k in 0..segs.len() {
            assert!(segs[k].0 < segs[k].1);
            if k + 1 < segs.len() {
                assert_eq!(segs[k].1, segs[k + 1].0);
            }
        }
    }
}

#[test]
fn test_parsed_spans_follow_tokens() {
    let e = ExprParser::new().parse("1 + 2 * x").expect("parse");
    assert_eq!(e.span, 0..9);
    match e.kind {
        ExprKind::Add(a, b) => {
            assert_eq!(a.span, 0..1);
            assert_eq!(b.span, 4..9);
            assert!(matches!(b.kind, ExprKind::Mul(_, _)));
        }
        other => panic!("expected an addition, got {other:?}"),
    }
}

#[test]
fn test_lexer_drops_only_whitespace() {
    let text = " \tx:=1 ;\r\n print ( \"a b\" )\u{c}";
    let toks = tokenize(text);
    let mut covered = vec![false; text.len()];
    let mut last_end = 0;
    for t in &toks {
        let (start, end) = match t {
            Ok((s, _, e)) => (*s, *e),
            Err(LexicalError::InvalidToken(r)) => (r.start, r.end),
        };
        assert!(last_end <= start && start < end && end <= text.len());
        for c in covered.iter_mut().take(end).skip(start) {
            *c = true;
        }
        last_end = end;
    }
    for (i, b) in text.bytes().enumerate() {
        if !covered[i] {
            assert!(matches!(b, b' ' | b'\t' | b'\n' | b'\r' | 0x0c));
        }
    }
    assert_eq!(toks.len(), 8);
}

#[test]
fn test_for_counter_after_the_loop() {
    let (out, err) = finished("integer i; for i := 5 to 1 do print(0); print(i);", "");
    assert_eq!((out.as_str(), err), ("5", None));
    let (out, err) = finished("integer i; integer n; n := 0; for i := 2 to 4 do n := n + 1; print(n); print(i);", "");
    assert_eq!((out.as_str(), err), ("35", None));
    let (out, err) = finished(
        "integer i; integer n; n := 0; for i := 1 to 3 do begin if i > 5 then break; n := n + 1; end; print(n); print(i);",
        "",
    );
    assert_eq!((out.as_str(), err), ("34", None));
}

#[test]
fn test_checker_accepts_exactly_well_typed_programs() {
    let cases = [
        ("integer x; integer x;", false),
        ("integer x; integer y; x := 1; y := x;", true),
        ("integer i; break;", false),
        ("integer i; for i := 1 to 2 do break;", true),
        ("integer i; integer j; for i := 1 to 2 do for j := 1 to 2 do continue;", true),
        ("integer i; for i := 1 to 2 do begin if true then continue; end;", true),
        ("boolean i; for i := 1 to 2 do print(1);", false),
        ("integer x; x := \"a\";", false),
        ("integer x; print(x = true);", false),
        ("string s; boolean b; b := s = \"a\";", true),
        ("integer x; print(y);", false),
        ("integer x; if x then print(1);", false),
    ];
    for (source, accepted) in cases {
        assert_eq!(check_source(source).is_ok(), accepted, "{source}");
    }
}

#[test]
fn test_checker_assignment_and_comparison_errors() {
    let cases = [
        ("integer x; y := 1;", "Przypisanie do niezadeklarowanej zmiennej: y"),
        (
            "integer x; x := true;",
            "Niezgodność typów: przypisujesz wartość typu Boolean do zmiennej 'x' typu Integer",
        ),
        ("integer x; print(x = \"a\");", "Porównanie niezgodnych typów: Integer oraz String"),
        ("integer x; x := 1 + true;", "Niezgodność typów: oczekiwano Integer, otrzymano Boolean"),
    ];
    for (source, message) in cases {
        match check_source(source) {
            Err(SourceError::Rejected { errors, .. }) => {
                assert_eq!(errors.errors.len(), 1, "{source}");
                assert_eq!(errors.errors[0].message, message);
            }
            _ => panic!("expected the checker to reject {source}"),
        }
    }
}
