use loom_lang::eval::eval_expression;
use loom_lang::forms::Form;
use loom_lang::frontend::Expr;
use loom_lang::parse::{read_expressions, Exp};
use loom_lang::parser::{dialogue_pass, lispify};
use loom_lang::script::{Block, Convo, KeyStore, Memory};

fn read_one(src: &str) -> Exp {
    let mut forms = read_expressions(src.to_string()).expect("read failed");
    assert_eq!(forms.len(), 1);
    forms.remove(0)
}

#[test]
fn numeric_atom_translates_to_normalized_literal() {
    match Expr::from_exp(&read_one("007")) {
        Expr::Literal(s) => assert_eq!(s, "7"),
        other => panic!("unexpected node {:?}", other),
    }
}

#[test]
fn ampersand_atom_translates_to_global_address() {
    match Expr::from_exp(&read_one("&screen")) {
        Expr::GlobalDataAddr(s) => assert_eq!(s, "screen"),
        other => panic!("unexpected node {:?}", other),
    }
}

#[test]
fn plain_atom_translates_to_identifier() {
    match Expr::from_exp(&read_one("counter")) {
        Expr::Identifier(s) => assert_eq!(s, "counter"),
        other => panic!("unexpected node {:?}", other),
    }
}

#[test]
fn operator_form_translates_to_binary_node() {
    match Expr::from_exp(&read_one("(+ 1 2)")) {
        Expr::Add(a, b) => {
            assert!(matches!(*a, Expr::Literal(ref s) if s == "1"));
            assert!(matches!(*b, Expr::Literal(ref s) if s == "2"));
        }
        other => panic!("unexpected node {:?}", other),
    }
}

#[test]
fn set_form_translates_to_assignment() {
    match Expr::from_exp(&read_one("(set x 3)")) {
        Expr::Assign(name, v) => {
            assert_eq!(name, "x");
            assert!(matches!(*v, Expr::Literal(ref s) if s == "3"));
        }
        other => panic!("unexpected node {:?}", other),
    }
}

#[test]
fn if_form_flattens_do_bodies() {
    match Expr::from_exp(&read_one("(if c (do 1 2) 3)")) {
        Expr::IfElse(_, t, f) => {
            assert_eq!(t.len(), 2);
            assert_eq!(f.len(), 1);
        }
        other => panic!("unexpected node {:?}", other),
    }
}

#[test]
fn while_form_keeps_body_statements() {
    match Expr::from_exp(&read_one("(while c 1 2)")) {
        Expr::WhileLoop(_, body) => assert_eq!(body.len(), 2),
        other => panic!("unexpected node {:?}", other),
    }
}

#[test]
fn array_form_translates_to_make_array() {
    match Expr::from_exp(&read_one("(array 16)")) {
        Expr::MakeArray(n) => assert_eq!(n, 16),
        other => panic!("unexpected node {:?}", other),
    }
}

#[test]
fn unknown_operator_translates_to_call() {
    match Expr::from_exp(&read_one("(draw 1 2)")) {
        Expr::Call(name, args) => {
            assert_eq!(name, "draw");
            assert_eq!(args.len(), 2);
        }
        other => panic!("unexpected node {:?}", other),
    }
}

#[test]
fn list_translates_to_fallback_literal() {
    match Expr::from_exp(&read_one("[1 2]")) {
        Expr::Literal(s) => assert_eq!(s, "-1"),
        other => panic!("unexpected node {:?}", other),
    }
}

#[test]
fn def_form_is_recognized() {
    match Form::from_exp(read_one("(def answer 42)")) {
        Form::Define(key, value) => {
            assert_eq!(key, "answer");
            assert!(matches!(value, Exp::Atom(ref s) if s == "42"));
        }
        other => panic!("unexpected form {:?}", other),
    }
}

#[test]
fn non_def_form_is_unknown() {
    assert!(matches!(Form::from_exp(read_one("(say hi)")), Form::Unknown));
}

#[test]
fn print_form_yields_nil_and_lines() {
    let (out, lines) = eval_expression(read_one("(print a 7)"));
    assert!(matches!(out, Exp::Nil));
    assert_eq!(lines, vec!["a".to_string(), "7".to_string()]);
}

#[test]
fn non_print_form_passes_through() {
    let (out, lines) = eval_expression(read_one("(f x)"));
    assert!(matches!(out, Exp::SExp { .. }));
    assert!(lines.is_empty());
}

#[test]
fn lispify_joins_lines() {
    assert_eq!(lispify("(a\nb)".to_string()), "(ab)");
}

#[test]
fn dialogue_pass_rewrites_speaker_lines() {
    assert_eq!(
        dialogue_pass("Ada: good morning".to_string()),
        "(say Ada \"good morning\")"
    );
}

#[test]
fn dialogue_pass_leaves_code_lines_alone() {
    assert_eq!(
        dialogue_pass("(get t :k 1)".to_string()),
        "(get t :k 1)"
    );
    assert_eq!(dialogue_pass("a b".to_string()), "a b");
}

#[test]
fn memory_starts_empty() {
    let m = Memory::new();
    assert!(m.map.is_empty());
}

#[test]
fn keystore_check_finds_flags() {
    let ks = KeyStore { map: vec![("ShadowRealm".to_string(), true)] };
    assert_eq!(ks.check(&"ShadowRealm".to_string()), Some(&true));
    assert_eq!(ks.check(&"Elsewhere".to_string()), None);
}

#[test]
fn convo_serves_lines_and_skips_gated_blocks() {
    let convo = Convo {
        keystore: KeyStore { map: vec![("open".to_string(), true), ("shut".to_string(), false)] },
        blocks: vec![
            Block { key: None, lines: vec!["one".to_string()] },
            Block { key: Some("shut".to_string()), lines: vec!["hidden".to_string()] },
            Block { key: Some("open".to_string()), lines: vec!["two".to_string()] },
        ],
    };
    let mut index = (0usize, 0usize);
    assert_eq!(convo.get_line(&mut index), Some(&"one".to_string()));
    assert_eq!(convo.get_line(&mut index), Some(&"two".to_string()));
    assert_eq!(convo.get_line(&mut index), None);
}
