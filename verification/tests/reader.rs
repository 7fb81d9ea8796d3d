use loom_lang::parse::{
    parse_expression, process_atom, read_expressions, tokenize, Exp, Location, ParseErrorKind,
    Token,
};

fn read_one(src: &str) -> Exp {
    let mut forms = read_expressions(src.to_string()).expect("read failed");
    assert_eq!(forms.len(), 1);
    forms.remove(0)
}

#[test]
fn tokenize_splits_parens_and_symbols() {
    let toks = tokenize("(a b)".to_string()).expect("tokenize failed");
    assert_eq!(toks.len(), 4);
    assert!(matches!(toks[0], Token::LParen { .. }));
    match &toks[1] {
        Token::Symbol { content, .. } => assert_eq!(content, "a"),
        other => panic!("unexpected token {:?}", other),
    }
    assert!(matches!(toks[3], Token::RParen { .. }));
}

#[test]
fn tokenize_tracks_line_and_column() {
    let toks = tokenize("(\nab)".to_string()).expect("tokenize failed");
    match &toks[0] {
        Token::LParen { location } => {
            assert_eq!(location.line, 1);
            assert_eq!(location.column, 1);
        }
        other => panic!("unexpected token {:?}", other),
    }
    match &toks[1] {
        Token::Symbol { content, location } => {
            assert_eq!(content, "ab");
            assert_eq!(location.line, 2);
            assert_eq!(location.column, 1);
        }
        other => panic!("unexpected token {:?}", other),
    }
}

#[test]
fn tokenize_reports_unterminated_string() {
    match tokenize("\"abc".to_string()) {
        Err(e) => assert_eq!(e.kind, ParseErrorKind::UnterminatedString),
        Ok(_) => panic!("expected an error"),
    }
}

#[test]
fn tokenize_collects_string_literals_verbatim() {
    let toks = tokenize("\"a (b) c\"".to_string()).expect("tokenize failed");
    assert_eq!(toks.len(), 1);
    match &toks[0] {
        Token::StrLit { content, .. } => assert_eq!(content, "a (b) c"),
        other => panic!("unexpected token {:?}", other),
    }
}

#[test]
fn tokenize_drops_comment_text_into_comment_tokens() {
    let toks = tokenize("a ; rest of line\nb".to_string()).expect("tokenize failed");
    let mut symbols = Vec::new();
    let mut comments = Vec::new();
    for t in &toks {
        match t {
            Token::Symbol { content, .. } => symbols.push(content.clone()),
            Token::Comment { content, .. } => comments.push(content.clone()),
            _ => {}
        }
    }
    assert_eq!(symbols, vec!["a".to_string(), "b".to_string()]);
    assert_eq!(comments, vec![" rest of line".to_string()]);
}

#[test]
fn reading_unterminated_group_is_an_error() {
    match read_expressions("(a b".to_string()) {
        Err(e) => assert_eq!(e.kind, ParseErrorKind::UnterminatedExpression),
        Ok(_) => panic!("expected an error"),
    }
}

#[test]
fn reading_stray_closer_is_an_error() {
    match read_expressions(")a(".to_string()) {
        Err(e) => assert_eq!(e.kind, ParseErrorKind::UnexpectedClosingDelimiter),
        Ok(_) => panic!("expected an error"),
    }
}

#[test]
fn reading_two_bare_atoms_inside_range_is_an_error() {
    let toks = tokenize("a b".to_string()).expect("tokenize failed");
    match parse_expression(&toks, 0, 1) {
        Err(e) => assert_eq!(e.kind, ParseErrorKind::MissingOpeningDelimiter),
        other => panic!("unexpected result {:?}", other),
    }
}

#[test]
fn single_bare_atom_reads_as_itself() {
    match read_one("hello") {
        Exp::Atom(s) => assert_eq!(s, "hello"),
        other => panic!("unexpected tree {:?}", other),
    }
}

#[test]
fn empty_group_reads_as_nil() {
    assert!(matches!(read_one("()"), Exp::Nil));
}

#[test]
fn nil_symbol_reads_as_nil() {
    let t = tokenize("nil".to_string()).expect("tokenize failed");
    match process_atom(&t[0]) {
        Some(Exp::Nil) => {}
        other => panic!("unexpected atom {:?}", other),
    }
}

#[test]
fn group_reads_as_application() {
    match read_one("(f x y)") {
        Exp::SExp { kind, args, kwargs } => {
            match *kind {
                Exp::Atom(ref s) => assert_eq!(s, "f"),
                ref other => panic!("unexpected operator {:?}", other),
            }
            assert_eq!(args.len(), 2);
            assert_eq!(kwargs.len(), 0);
        }
        other => panic!("unexpected tree {:?}", other),
    }
}

#[test]
fn bracket_group_reads_as_list() {
    match read_one("[x y]") {
        Exp::List(items) => assert_eq!(items.len(), 2),
        other => panic!("unexpected tree {:?}", other),
    }
}

#[test]
fn keyword_operand_consumes_next_element() {
    match read_one("(f a :name b c)") {
        Exp::SExp { args, kwargs, .. } => {
            assert_eq!(args.len(), 2);
            assert_eq!(kwargs.len(), 1);
            assert_eq!(kwargs[0].0, "name");
            match &kwargs[0].1 {
                Exp::Atom(s) => assert_eq!(s, "b"),
                other => panic!("unexpected keyword value {:?}", other),
            }
        }
        other => panic!("unexpected tree {:?}", other),
    }
}

#[test]
fn accessors_walk_an_application() {
    let e = read_one("(f x y)");
    assert_eq!(e.car_symbol(), Some("f".to_string()));
    assert_eq!(e.arg_symbol(0), Some("x".to_string()));
    assert_eq!(e.arg_symbol(1), Some("y".to_string()));
    assert_eq!(e.arg_symbol(2), None);
    assert_eq!(e.args().map(|v| v.len()), Some(2));
    assert!(e.as_symbol().is_none());
    let a = read_one("plain");
    assert_eq!(a.as_symbol(), Some("plain".to_string()));
}

#[test]
fn new_sexp_splits_keyword_pairs() {
    let contents = vec![
        Exp::Atom("f".to_string()),
        Exp::Atom(":k".to_string()),
        Exp::Atom("v".to_string()),
        Exp::Atom("w".to_string()),
    ];
    match Exp::new_sexp(contents) {
        Exp::SExp { kind, args, kwargs } => {
            assert!(matches!(*kind, Exp::Atom(ref s) if s == "f"));
            assert_eq!(args.len(), 1);
            assert_eq!(kwargs.len(), 1);
            assert_eq!(kwargs[0].0, "k");
        }
        other => panic!("unexpected tree {:?}", other),
    }
}

#[test]
fn location_new_keeps_fields() {
    let l = Location::new(3, 9);
    assert_eq!(l.line, 3);
    assert_eq!(l.column, 9);
}

#[test]
fn render_then_reread_reproduces_application() {
    let e = read_one("(f x [a b] (g 1) :k v)");
    let text = e.render();
    let e2 = read_one(&text);
    assert_eq!(text, e2.render());
}

#[test]
fn render_then_reread_reproduces_nested_lists() {
    let e = read_one("[a [b c] (f)]");
    let text = e.render();
    let e2 = read_one(&text);
    assert_eq!(text, e2.render());
}

#[test]
fn render_of_nil_rereads_as_nil() {
    let e = read_one("()");
    assert_eq!(e.render(), "nil");
    assert!(matches!(read_one("nil"), Exp::Nil));
}

#[test]
fn comments_do_not_reach_the_tree() {
    let forms = read_expressions("(f x) ; trailing\n".to_string()).expect("read failed");
    assert_eq!(forms.len(), 1);
}

#[test]
fn parse_error_message_names_the_failure() {
    match read_expressions("(a".to_string()) {
        Err(e) => assert_eq!(e.message(), "Missing closing delimiter"),
        Ok(_) => panic!("expected an error"),
    }
}
