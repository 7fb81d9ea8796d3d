use loom_lang::exp::{LoomEnv, LoomErr, LoomExp};
use loom_lang::parser::{tokenize, tokens_to_exp, ParseError};

fn run_forms(src: &str, env: &mut LoomEnv) -> Result<LoomExp, LoomErr> {
    let toks = tokenize(src.to_string()).expect("tokenize failed");
    let exp = tokens_to_exp(toks, true).expect("read failed");
    let forms = match exp {
        LoomExp::List(forms) => forms,
        other => panic!("expected a list of forms, got {:?}", other),
    };
    let mut last: Result<LoomExp, LoomErr> = Ok(LoomExp::Nil);
    for f in forms {
        last = f.eval(env, 64);
    }
    last
}

fn eval_one(src: &str) -> Result<LoomExp, LoomErr> {
    let mut env = LoomEnv::default();
    run_forms(src, &mut env)
}

#[test]
fn addition_sums_numbers() {
    match eval_one("(+ 1 2 3)") {
        Ok(LoomExp::Number(n)) => assert_eq!(n, 6),
        other => panic!("unexpected result {:?}", other),
    }
}

#[test]
fn addition_rejects_non_numbers() {
    match eval_one("(+ 1 \"x\")") {
        Err(LoomErr::TypeError) => {}
        other => panic!("unexpected result {:?}", other),
    }
}

#[test]
fn if_with_nil_takes_else_branch() {
    match eval_one("(if nil 1 2)") {
        Ok(LoomExp::Number(n)) => assert_eq!(n, 2),
        other => panic!("unexpected result {:?}", other),
    }
}

#[test]
fn if_with_truthy_takes_then_branch() {
    match eval_one("(if 5 1)") {
        Ok(LoomExp::Number(n)) => assert_eq!(n, 1),
        other => panic!("unexpected result {:?}", other),
    }
}

#[test]
fn if_with_nil_and_no_else_is_nil() {
    match eval_one("(if nil 1)") {
        Ok(LoomExp::Nil) => {}
        other => panic!("unexpected result {:?}", other),
    }
}

#[test]
fn sequential_forms_share_one_environment() {
    let mut env = LoomEnv::default();
    run_forms("(let x 5)", &mut env).expect("binding failed");
    match run_forms("(+ x x)", &mut env) {
        Ok(LoomExp::Number(n)) => assert_eq!(n, 10),
        other => panic!("unexpected result {:?}", other),
    }
}

#[test]
fn table_get_finds_bound_key() {
    let mut env = LoomEnv::default();
    run_forms("(let t (table #a 1 #b 2))", &mut env).expect("binding failed");
    match run_forms("(get t a)", &mut env) {
        Ok(LoomExp::Number(n)) => assert_eq!(n, 1),
        other => panic!("unexpected result {:?}", other),
    }
}

#[test]
fn table_get_missing_key_is_nil() {
    let mut env = LoomEnv::default();
    run_forms("(let t (table #a 1 #b 2))", &mut env).expect("binding failed");
    match run_forms("(get t z)", &mut env) {
        Ok(LoomExp::Nil) => {}
        other => panic!("unexpected result {:?}", other),
    }
}

#[test]
fn table_odd_operands_is_arity_error() {
    match eval_one("(table #a)") {
        Err(LoomErr::ArityError) => {}
        other => panic!("unexpected result {:?}", other),
    }
}

#[test]
fn match_picks_equal_pattern() {
    match eval_one("(match 2 (1 \"one\") (2 \"two\"))") {
        Ok(LoomExp::FString(s)) => assert_eq!(s, "two"),
        other => panic!("unexpected result {:?}", other),
    }
}

#[test]
fn match_without_equal_pattern_is_nil() {
    match eval_one("(match 9 (1 \"one\"))") {
        Ok(LoomExp::Nil) => {}
        other => panic!("unexpected result {:?}", other),
    }
}

#[test]
fn unbound_operator_reports_unbound_symbol() {
    let mut env = LoomEnv::default();
    match run_forms("(frobnicate 1 2)", &mut env) {
        Err(LoomErr::UnboundSymbol(name)) => assert_eq!(name, "frobnicate"),
        other => panic!("unexpected result {:?}", other),
    }
    // The failed call left the environment usable and unchanged.
    match run_forms("(+ 2 2)", &mut env) {
        Ok(LoomExp::Number(n)) => assert_eq!(n, 4),
        other => panic!("unexpected result {:?}", other),
    }
    assert!(env.lookup(&"frobnicate".to_string()).is_none());
}

#[test]
fn equality_is_structural() {
    match eval_one("(= 2 2 2)") {
        Ok(LoomExp::True) => {}
        other => panic!("unexpected result {:?}", other),
    }
    match eval_one("(= 2 3)") {
        Ok(LoomExp::Nil) => {}
        other => panic!("unexpected result {:?}", other),
    }
    match eval_one("(= \"a\" \"a\")") {
        Ok(LoomExp::True) => {}
        other => panic!("unexpected result {:?}", other),
    }
}

#[test]
fn not_flips_nil_and_truthy() {
    match eval_one("(not nil)") {
        Ok(LoomExp::True) => {}
        other => panic!("unexpected result {:?}", other),
    }
    match eval_one("(not 5)") {
        Ok(LoomExp::Nil) => {}
        other => panic!("unexpected result {:?}", other),
    }
    match eval_one("(not 1 2)") {
        Err(LoomErr::ArityError) => {}
        other => panic!("unexpected result {:?}", other),
    }
}

#[test]
fn do_yields_last_value_or_true() {
    match eval_one("(do 1 2 3)") {
        Ok(LoomExp::Number(n)) => assert_eq!(n, 3),
        other => panic!("unexpected result {:?}", other),
    }
    match eval_one("(do)") {
        Ok(LoomExp::True) => {}
        other => panic!("unexpected result {:?}", other),
    }
}

#[test]
fn quote_returns_operands_unevaluated() {
    match eval_one("(quote x)") {
        Ok(LoomExp::Symbol(s)) => assert_eq!(s, "x"),
        other => panic!("unexpected result {:?}", other),
    }
    match eval_one("(quote a b)") {
        Ok(LoomExp::List(items)) => assert_eq!(items.len(), 2),
        other => panic!("unexpected result {:?}", other),
    }
}

#[test]
fn angle_bracket_sugar_quotes() {
    match eval_one("<(+ 1 2)>") {
        Ok(LoomExp::List(items)) => {
            assert_eq!(items.len(), 3);
            match &items[0] {
                LoomExp::Symbol(s) => assert_eq!(s, "+"),
                other => panic!("unexpected head {:?}", other),
            }
        }
        other => panic!("unexpected result {:?}", other),
    }
}

#[test]
fn brace_sugar_builds_table() {
    let mut env = LoomEnv::default();
    run_forms("(let t {#a 7})", &mut env).expect("binding failed");
    match run_forms("(get t a)", &mut env) {
        Ok(LoomExp::Number(n)) => assert_eq!(n, 7),
        other => panic!("unexpected result {:?}", other),
    }
}

#[test]
fn dotted_name_reads_as_get_chain() {
    let mut env = LoomEnv::default();
    run_forms("(let t (table #a (table #b 9)))", &mut env).expect("binding failed");
    match run_forms("t.a.b", &mut env) {
        Ok(LoomExp::Number(n)) => assert_eq!(n, 9),
        other => panic!("unexpected result {:?}", other),
    }
}

#[test]
fn format_concatenates_renderings() {
    match eval_one("(format 1 2)") {
        Ok(LoomExp::FString(s)) => assert_eq!(s, "12"),
        other => panic!("unexpected result {:?}", other),
    }
}

#[test]
fn say_appends_dialogue_line_to_output() {
    let mut env = LoomEnv::default();
    run_forms("(say \"Ada\" \"hello\")", &mut env).expect("say failed");
    let lines = env.take_output();
    assert_eq!(lines, vec!["Ada: hello".to_string()]);
}

#[test]
fn say_checks_its_arguments() {
    match eval_one("(say \"Ada\")") {
        Err(LoomErr::ArityError) => {}
        other => panic!("unexpected result {:?}", other),
    }
    match eval_one("(say 1 2)") {
        Err(LoomErr::TypeError) => {}
        other => panic!("unexpected result {:?}", other),
    }
}

#[test]
fn print_writes_raw_strings_and_renderings() {
    let mut env = LoomEnv::default();
    run_forms("(print \"hi\" 3)", &mut env).expect("print failed");
    let lines = env.take_output();
    assert_eq!(lines, vec!["hi".to_string(), "3".to_string()]);
}

#[test]
fn dialogue_line_becomes_say_call() {
    let mut env = LoomEnv::default();
    run_forms("(let Ada \"Ada\")\nAda: good morning", &mut env).expect("dialogue failed");
    let lines = env.take_output();
    assert_eq!(lines, vec!["Ada: good morning".to_string()]);
}

#[test]
fn run_reads_stored_file_into_same_environment() {
    let mut env = LoomEnv::default();
    env.file_put("boot.loom".to_string(), "(let x 21)".to_string());
    run_forms("(run \"boot.loom\")", &mut env).expect("run failed");
    match run_forms("(+ x x)", &mut env) {
        Ok(LoomExp::Number(n)) => assert_eq!(n, 42),
        other => panic!("unexpected result {:?}", other),
    }
}

#[test]
fn run_missing_file_is_io_error() {
    match eval_one("(run \"nowhere.loom\")") {
        Err(LoomErr::IoError(name)) => assert_eq!(name, "nowhere.loom"),
        other => panic!("unexpected result {:?}", other),
    }
}

#[test]
fn load_returns_value_and_binds_symbol() {
    let mut env = LoomEnv::default();
    env.file_put("val.loom".to_string(), "(+ 20 22)".to_string());
    match run_forms("(load \"val.loom\" answer)", &mut env) {
        Ok(LoomExp::Number(n)) => assert_eq!(n, 42),
        other => panic!("unexpected result {:?}", other),
    }
    match run_forms("answer", &mut env) {
        Ok(LoomExp::Number(n)) => assert_eq!(n, 42),
        other => panic!("unexpected result {:?}", other),
    }
}

#[test]
fn save_writes_rendering_to_file_store() {
    let mut env = LoomEnv::default();
    run_forms("(save 7 \"out.loom\")", &mut env).expect("save failed");
    assert_eq!(env.file_get(&"out.loom".to_string()), Some("7".to_string()));
}

#[test]
fn exit_signals_and_says_goodbye() {
    let mut env = LoomEnv::default();
    match run_forms("(exit)", &mut env) {
        Err(LoomErr::Exit) => {}
        other => panic!("unexpected result {:?}", other),
    }
    let lines = env.take_output();
    assert_eq!(lines, vec!["Goodbye for now!".to_string()]);
}

#[test]
fn random_picks_an_element_of_the_list() {
    let mut env = LoomEnv::default();
    match run_forms("(random [5])", &mut env) {
        Ok(LoomExp::Number(n)) => assert_eq!(n, 5),
        other => panic!("unexpected result {:?}", other),
    }
    for _ in 0..16 {
        match run_forms("(random [1 2 3])", &mut env) {
            Ok(LoomExp::Number(n)) => assert!(n == 1 || n == 2 || n == 3),
            other => panic!("unexpected result {:?}", other),
        }
    }
}

#[test]
fn eval_builtin_reevaluates_its_argument() {
    match eval_one("(eval <(+ 1 2)>)") {
        Ok(LoomExp::Number(n)) => assert_eq!(n, 3),
        other => panic!("unexpected result {:?}", other),
    }
}

#[test]
fn list_builtin_collects_values() {
    match eval_one("(list 1 2)") {
        Ok(LoomExp::List(items)) => {
            assert_eq!(items.len(), 2);
            assert!(items[0].eq(&LoomExp::Number(1)));
            assert!(items[1].eq(&LoomExp::Number(2)));
        }
        other => panic!("unexpected result {:?}", other),
    }
}

#[test]
fn bracket_literal_is_not_called() {
    match eval_one("[1 2]") {
        // The bracket list reads as a (list 1 2) call under this reader.
        Ok(LoomExp::List(items)) => assert_eq!(items.len(), 2),
        other => panic!("unexpected result {:?}", other),
    }
}

#[test]
fn fuel_exhaustion_reports_depth_limit() {
    let mut env = LoomEnv::default();
    let toks = tokenize("(+ 1 1)".to_string()).expect("tokenize failed");
    let exp = tokens_to_exp(toks, false).expect("read failed");
    match exp.eval(&mut env, 0) {
        Err(LoomErr::DepthLimit) => {}
        other => panic!("unexpected result {:?}", other),
    }
}

#[test]
fn addition_overflow_is_reported() {
    match eval_one("(+ 9223372036854775807 1)") {
        Err(LoomErr::TypeError) => {}
        other => panic!("unexpected result {:?}", other),
    }
}

#[test]
fn unterminated_string_is_reported_by_tokenizer() {
    match tokenize("\"abc".to_string()) {
        Err(ParseError::UnfinishedString) => {}
        other => panic!("unexpected result {:?}", other),
    }
}

#[test]
fn stray_closing_paren_is_reported_by_reader() {
    let toks = tokenize(") 1".to_string()).expect("tokenize failed");
    match tokens_to_exp(toks, true) {
        Err(ParseError::UnexpectedRParen) => {}
        other => panic!("unexpected result {:?}", other),
    }
}

#[test]
fn structural_equality_of_tables_ignores_order() {
    let mut env = LoomEnv::default();
    run_forms("(let a (table #x 1 #y 2)) (let b (table #y 2 #x 1))", &mut env)
        .expect("bindings failed");
    match run_forms("(= a b)", &mut env) {
        Ok(LoomExp::True) => {}
        other => panic!("unexpected result {:?}", other),
    }
}

#[test]
fn functions_never_compare_equal() {
    // Two references to the same native operation are still unequal.
    match eval_one("(let f +) (= f f)") {
        Ok(LoomExp::Nil) => {}
        other => panic!("unexpected result {:?}", other),
    }
}

#[test]
fn error_descriptions_are_stable() {
    assert_eq!(LoomErr::TypeError.describe(), "type error");
    assert_eq!(
        LoomErr::UnboundSymbol("zig".to_string()).describe(),
        "unbound symbol zig"
    );
}
