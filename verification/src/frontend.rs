//! The compiler-facing AST: the node shapes a code backend consumes,
//! and the lowering of reader trees into them.

use vstd::prelude::*;
use crate::parse::{Exp, ExpV, view_exps, lemma_view_exps};
use crate::text::{to_chars, parse_i64, parse_int_spec, render_int, render_i64};

verus! {

/// The AST node for expressions.
#[derive(Debug)]
pub enum Expr {
    Literal(String),
    Identifier(String),
    Assign(String, Box<Expr>),
    Eq(Box<Expr>, Box<Expr>),
    Ne(Box<Expr>, Box<Expr>),
    Lt(Box<Expr>, Box<Expr>),
    Le(Box<Expr>, Box<Expr>),
    Gt(Box<Expr>, Box<Expr>),
    Ge(Box<Expr>, Box<Expr>),
    Add(Box<Expr>, Box<Expr>),
    Sub(Box<Expr>, Box<Expr>),
    Mul(Box<Expr>, Box<Expr>),
    Div(Box<Expr>, Box<Expr>),
    Modulo(Box<Expr>, Box<Expr>),
    IfElse(Box<Expr>, Vec<Expr>, Vec<Expr>),
    WhileLoop(Box<Expr>, Vec<Expr>),
    Call(String, Vec<Expr>),
    GlobalDataAddr(String),
    Sequence(Vec<Expr>),
    MakeArray(u32),
    GetArrayElem(Box<Expr>, Box<Expr>),
    SetArrayElem(Box<Expr>, Box<Expr>, Box<Expr>),
}

/// The mathematical shape of an `Expr`.
#[verifier::ext_equal]
pub enum ExprV {
    Literal(Seq<char>),
    Identifier(Seq<char>),
    Assign(Seq<char>, Box<ExprV>),
    Eq(Box<ExprV>, Box<ExprV>),
    Ne(Box<ExprV>, Box<ExprV>),
    Lt(Box<ExprV>, Box<ExprV>),
    Le(Box<ExprV>, Box<ExprV>),
    Gt(Box<ExprV>, Box<ExprV>),
    Ge(Box<ExprV>, Box<ExprV>),
    Add(Box<ExprV>, Box<ExprV>),
    Sub(Box<ExprV>, Box<ExprV>),
    Mul(Box<ExprV>, Box<ExprV>),
    Div(Box<ExprV>, Box<ExprV>),
    Modulo(Box<ExprV>, Box<ExprV>),
    IfElse(Box<ExprV>, Seq<ExprV>, Seq<ExprV>),
    WhileLoop(Box<ExprV>, Seq<ExprV>),
    Call(Seq<char>, Seq<ExprV>),
    GlobalDataAddr(Seq<char>),
    Sequence(Seq<ExprV>),
    MakeArray(int),
    GetArrayElem(Box<ExprV>, Box<ExprV>),
    SetArrayElem(Box<ExprV>, Box<ExprV>, Box<ExprV>),
}

impl View for Expr {
    type V = ExprV;

    open spec fn view(&self) -> ExprV
        decreases self,
    {
        match self {
            Expr::Literal(s) => ExprV::Literal(s@),
            Expr::Identifier(s) => ExprV::Identifier(s@),
            Expr::Assign(s, e) => ExprV::Assign(s@, Box::new((**e)@)),
            Expr::Eq(a, b) => ExprV::Eq(Box::new((**a)@), Box::new((**b)@)),
            Expr::Ne(a, b) => ExprV::Ne(Box::new((**a)@), Box::new((**b)@)),
            Expr::Lt(a, b) => ExprV::Lt(Box::new((**a)@), Box::new((**b)@)),
            Expr::Le(a, b) => ExprV::Le(Box::new((**a)@), Box::new((**b)@)),
            Expr::Gt(a, b) => ExprV::Gt(Box::new((**a)@), Box::new((**b)@)),
            Expr::Ge(a, b) => ExprV::Ge(Box::new((**a)@), Box::new((**b)@)),
            Expr::Add(a, b) => ExprV::Add(Box::new((**a)@), Box::new((**b)@)),
            Expr::Sub(a, b) => ExprV::Sub(Box::new((**a)@), Box::new((**b)@)),
            Expr::Mul(a, b) => ExprV::Mul(Box::new((**a)@), Box::new((**b)@)),
            Expr::Div(a, b) => ExprV::Div(Box::new((**a)@), Box::new((**b)@)),
            Expr::Modulo(a, b) => ExprV::Modulo(Box::new((**a)@), Box::new((**b)@)),
            Expr::IfElse(c, t, f) => ExprV::IfElse(
                Box::new((**c)@),
                view_exprs(t@),
                view_exprs(f@),
            ),
            Expr::WhileLoop(c, b) => ExprV::WhileLoop(Box::new((**c)@), view_exprs(b@)),
            Expr::Call(n, a) => ExprV::Call(n@, view_exprs(a@)),
            Expr::GlobalDataAddr(s) => ExprV::GlobalDataAddr(s@),
            Expr::Sequence(b) => ExprV::Sequence(view_exprs(b@)),
            Expr::MakeArray(n) => ExprV::MakeArray(*n as int),
            Expr::GetArrayElem(a, b) => ExprV::GetArrayElem(Box::new((**a)@), Box::new((**b)@)),
            Expr::SetArrayElem(a, b, c) => ExprV::SetArrayElem(
                Box::new((**a)@),
                Box::new((**b)@),
                Box::new((**c)@),
            ),
        }
    }
}

pub open spec fn view_exprs(s: Seq<Expr>) -> Seq<ExprV>
    decreases s,
{
    if s.len() == 0 {
        Seq::empty()
    } else {
        seq![s[0]@] + view_exprs(s.drop_first())
    }
}

pub proof fn lemma_view_exprs(s: Seq<Expr>)
    ensures
        view_exprs(s).len() == s.len(),
        forall|i: int| 0 <= i < s.len() ==> view_exprs(s)[i] == s[i]@,
    decreases s.len(),
{
    if s.len() > 0 {
        lemma_view_exprs(s.drop_first());
        assert(view_exprs(s) == seq![s[0]@] + view_exprs(s.drop_first()));
        assert forall|i: int| 0 <= i < s.len() implies view_exprs(s)[i] == s[i]@ by {
            if i > 0 {
                assert(s.drop_first()[i - 1] == s[i]);
                assert(view_exprs(s)[i] == view_exprs(s.drop_first())[i - 1]);
            } else {
                assert(view_exprs(s)[0] == s[0]@);
            }
        }
    }
}

/// The AST of an unrecognized shape: the literal `-1`.
pub open spec fn lit_neg1() -> ExprV {
    ExprV::Literal(seq!['-', '1'])
}

/// What an atom translates to when it is not a numeric literal: a
/// global data address for an `&`-prefixed name, a plain identifier
/// otherwise.
pub open spec fn atom_expr(s: Seq<char>) -> ExprV {
    if s.len() > 0 && s[0] == '&' {
        ExprV::GlobalDataAddr(s.subrange(1, s.len() as int))
    } else {
        ExprV::Identifier(s)
    }
}

/// A body expression flattened into a statement list: a `Sequence`
/// contributes its elements, anything else stands alone.
pub open spec fn flatten(e: ExprV) -> Seq<ExprV> {
    match e {
        ExprV::Sequence(c) => c,
        _ => seq![e],
    }
}

/// The translations of the operands `args[i..]`.
pub open spec fn map_from(args: Seq<ExpV>, i: int) -> Seq<ExprV>
    decreases args, args.len() - i,
{
    if i < 0 || i >= args.len() {
        Seq::empty()
    } else {
        seq![from_exp_spec(args[i])] + map_from(args, i + 1)
    }
}

/// What a named call form translates to, over the translated
/// operands: the arithmetic and comparison operators, control forms,
/// bindings, the array primitives, or a plain call.
pub open spec fn sexp_expr(name: Seq<char>, cs: Seq<ExprV>) -> ExprV {
    if name == "+"@ || name == "-"@ || name == "*"@ || name == "/"@ || name == "="@ || name
        == "!="@ || name == "<"@ || name == "<="@ || name == ">"@ || name == ">="@ || name
        == "%"@ {
        if cs.len() >= 2 {
            let a = Box::new(cs[0]);
            let b = Box::new(cs[1]);
            if name == "+"@ {
                ExprV::Add(a, b)
            } else if name == "-"@ {
                ExprV::Sub(a, b)
            } else if name == "*"@ {
                ExprV::Mul(a, b)
            } else if name == "/"@ {
                ExprV::Div(a, b)
            } else if name == "="@ {
                ExprV::Eq(a, b)
            } else if name == "!="@ {
                ExprV::Ne(a, b)
            } else if name == "<"@ {
                ExprV::Lt(a, b)
            } else if name == "<="@ {
                ExprV::Le(a, b)
            } else if name == ">"@ {
                ExprV::Gt(a, b)
            } else if name == ">="@ {
                ExprV::Ge(a, b)
            } else {
                ExprV::Modulo(a, b)
            }
        } else {
            lit_neg1()
        }
    } else if name == "if"@ {
        if cs.len() >= 2 {
            ExprV::IfElse(
                Box::new(cs[0]),
                flatten(cs[1]),
                if cs.len() > 2 {
                    flatten(cs[2])
                } else {
                    Seq::empty()
                },
            )
        } else {
            lit_neg1()
        }
    } else if name == "set"@ {
        if cs.len() >= 2 && cs[0] is Identifier {
            ExprV::Assign(cs[0]->Identifier_0, Box::new(cs[1]))
        } else {
            lit_neg1()
        }
    } else if name == "while"@ {
        if cs.len() >= 1 {
            ExprV::WhileLoop(Box::new(cs[0]), cs.subrange(1, cs.len() as int))
        } else {
            lit_neg1()
        }
    } else if name == "do"@ {
        ExprV::Sequence(cs)
    } else if name == "array"@ {
        if cs.len() >= 1 && cs[0] is Literal && (parse_int_spec(cs[0]->Literal_0) matches Some(n)
            && 0 <= parse_int_spec(cs[0]->Literal_0)->0 <= 0xffff_ffff) {
            ExprV::MakeArray(parse_int_spec(cs[0]->Literal_0)->0)
        } else {
            lit_neg1()
        }
    } else if name == "array_get"@ {
        if cs.len() >= 2 {
            ExprV::GetArrayElem(Box::new(cs[0]), Box::new(cs[1]))
        } else {
            lit_neg1()
        }
    } else if name == "array_set"@ {
        if cs.len() >= 3 {
            ExprV::SetArrayElem(Box::new(cs[0]), Box::new(cs[1]), Box::new(cs[2]))
        } else {
            lit_neg1()
        }
    } else {
        ExprV::Call(name, cs)
    }
}

/// The translation of one reader tree into the AST: a numeric atom
/// becomes a normalized literal, any other atom an identifier or
/// address, a call form one of the recognized operators, and any
/// other shape the fallback literal.
pub open spec fn from_exp_spec(e: ExpV) -> ExprV
    decreases e, 0int,
{
    match e {
        ExpV::Atom(s) => match parse_int_spec(s) {
            Some(n) => if -0x8000_0000 <= n <= 0x7fff_ffff {
                ExprV::Literal(render_int(n))
            } else {
                atom_expr(s)
            },
            None => atom_expr(s),
        },
        ExpV::SExp { kind, args, .. } => match *kind {
            ExpV::Atom(name) => sexp_expr(name, map_from(args, 0)),
            _ => lit_neg1(),
        },
        _ => lit_neg1(),
    }
}

pub proof fn lemma_map_from(args: Seq<ExpV>, i: int)
    requires
        0 <= i <= args.len(),
    ensures
        map_from(args, i).len() == args.len() - i,
        forall|j: int|
            i <= j < args.len() ==> map_from(args, i)[j - i] == from_exp_spec(#[trigger] args[j]),
    decreases args.len() - i,
{
    if i < args.len() {
        lemma_map_from(args, i + 1);
        assert(map_from(args, i) == seq![from_exp_spec(args[i])] + map_from(args, i + 1));
        assert forall|j: int| i <= j < args.len() implies map_from(args, i)[j - i] == from_exp_spec(
            #[trigger] args[j],
        ) by {
            if j > i {
                assert(map_from(args, i)[j - i] == map_from(args, i + 1)[j - (i + 1)]);
            }
        }
    }
}

} // verus!

verus! {

fn lit_neg1_exec() -> (r: Expr)
    ensures
        r@ == lit_neg1(),
{
    let r = Expr::Literal(String::from_str("-1"));
    proof {
        reveal_strlit("-1");
        assert(r@ =~~= lit_neg1());
    }
    r
}

fn flatten_exec(e: Expr) -> (r: Vec<Expr>)
    ensures
        view_exprs(r@) == flatten(e@),
{
    let ghost ev = e@;
    match e {
        Expr::Sequence(c) => {
            proof {
                assert(view_exprs(c@) =~~= flatten(ev));
            }
            c
        },
        other => {
            let mut v: Vec<Expr> = Vec::new();
            let ghost ov = other@;
            v.push(other);
            proof {
                lemma_view_exprs(v@);
                assert(view_exprs(v@) =~~= seq![ov]);
                assert(!(ov is Sequence));
                assert(view_exprs(v@) =~~= flatten(ev));
            }
            v
        },
    }
}

fn map_range(args: &Vec<Exp>, from: usize) -> (r: Vec<Expr>)
    requires
        from <= args@.len(),
    ensures
        view_exprs(r@) == map_from(view_exps(args@), 0).subrange(
            from as int,
            args@.len() as int,
        ),
    decreases args@, args@.len() - from + 1,
{
    proof {
        lemma_view_exps(args@);
        lemma_map_from(view_exps(args@), 0);
    }
    let ghost av = view_exps(args@);
    let ghost full = map_from(av, 0);
    let mut out: Vec<Expr> = Vec::new();
    let mut i: usize = from;
    while i < args.len()
        invariant
            from <= i <= args@.len(),
            av == view_exps(args@),
            av.len() == args@.len(),
            full == map_from(av, 0),
            full.len() == av.len(),
            forall|j: int| 0 <= j < args@.len() ==> view_exps(args@)[j] == args@[j]@,
            forall|j: int| 0 <= j < av.len() ==> full[j] == from_exp_spec(av[j]),
            view_exprs(out@) == full.subrange(from as int, i as int),
        decreases args@.len() - i,
    {
        let ghost o0 = out@;
        proof {
            assert(decreases_to!(args@ => args@[i as int]));
        }
        out.push(Expr::from_exp(&args[i]));
        i = i + 1;
        proof {
            lemma_view_exprs(o0);
            lemma_view_exprs(out@);
            assert(view_exprs(out@) =~= full.subrange(from as int, i as int));
        }
    }
    proof {
        assert(view_exprs(out@) =~= full.subrange(from as int, args@.len() as int));
    }
    out
}

impl Expr {
    /// Translates one reader tree into the compiler's AST.
    pub fn from_exp(x: &Exp) -> (r: Self)
        ensures
            r@ == from_exp_spec(x@),
        decreases x, 0int,
    {
        match x {
            Exp::Atom(contents) => {
                let cs = to_chars(contents.as_str());
                let parsed = parse_i64(&cs);
                let in_range = match parsed {
                    Some(n) => -2147483648i64 <= n && n <= 2147483647i64,
                    None => false,
                };
                if in_range {
                    let n = match parsed {
                        Some(n) => n,
                        None => 0,
                    };
                    let rr = Expr::Literal(render_i64(n));
                    proof {
                        assert(rr@ == from_exp_spec(x@));
                    }
                    rr
                } else {
                    if cs.len() > 0 && cs[0] == '&' {
                        let mut tail: Vec<char> = Vec::new();
                        let mut i: usize = 1;
                        while i < cs.len()
                            invariant
                                1 <= i <= cs@.len(),
                                tail@ == cs@.subrange(1, i as int),
                            decreases cs@.len() - i,
                        {
                            tail.push(cs[i]);
                            i = i + 1;
                            proof {
                                assert(tail@ =~= cs@.subrange(1, i as int));
                            }
                        }
                        proof {
                            assert(tail@ =~= cs@.subrange(1, cs@.len() as int));
                        }
                        Expr::GlobalDataAddr(crate::text::from_chars(&tail))
                    } else {
                        Expr::Identifier(contents.clone())
                    }
                }
            },
            Exp::SExp { kind, args, kwargs: _ } => {
                match &(**kind) {
                    Exp::Atom(name) => {
                        proof {
                            assert((**kind)@ == ExpV::Atom(name@));
                            assert(x@ matches ExpV::SExp { kind: kv, .. } && *kv == (**kind)@);
                            lemma_view_exps(args@);
                            lemma_map_from(view_exps(args@), 0);
                            assert(from_exp_spec(x@) == sexp_expr(
                                name@,
                                map_from(view_exps(args@), 0),
                            ));
                        }
                        let ghost av = view_exps(args@);
                        let ghost cs = map_from(av, 0);
                        proof {
                            assert forall|j: int| 0 <= j < args@.len() implies #[trigger] cs[j]
                                == from_exp_spec(args@[j]@) by {
                                assert(av[j] == args@[j]@);
                                assert(cs[j] == from_exp_spec(av[j]));
                            }
                            assert(cs.len() == args@.len());
                        }
                        let is_binary = name.eq(&String::from_str("+")) || name.eq(
                            &String::from_str("-"),
                        ) || name.eq(&String::from_str("*")) || name.eq(&String::from_str("/"))
                            || name.eq(&String::from_str("=")) || name.eq(&String::from_str("!="))
                            || name.eq(&String::from_str("<")) || name.eq(&String::from_str("<="))
                            || name.eq(&String::from_str(">")) || name.eq(&String::from_str(">="))
                            || name.eq(&String::from_str("%"));
                        if is_binary {
                            if args.len() >= 2 {
                                proof {
                                    assert(decreases_to!(*x => x->SExp_args));
                                    assert(x->SExp_args == *args);
                                    assert(decreases_to!(*args => args@));
                                    assert(decreases_to!(args@ => args@[0]));
                                    assert(decreases_to!(args@ => args@[1]));
                                    assert(decreases_to!(*x => args@[0]));
                                    assert(decreases_to!(*x => args@[1]));
                                }
                                let a = Box::new(Self::from_exp(&args[0]));
                                let b = Box::new(Self::from_exp(&args[1]));
                                if name.eq(&String::from_str("+")) {
                                    let rr = Expr::Add(a, b);
                                    proof {
                                        assert(rr@ == from_exp_spec(x@));
                                    }
                                    rr
                                } else if name.eq(&String::from_str("-")) {
                                    Expr::Sub(a, b)
                                } else if name.eq(&String::from_str("*")) {
                                    Expr::Mul(a, b)
                                } else if name.eq(&String::from_str("/")) {
                                    Expr::Div(a, b)
                                } else if name.eq(&String::from_str("=")) {
                                    Expr::Eq(a, b)
                                } else if name.eq(&String::from_str("!=")) {
                                    Expr::Ne(a, b)
                                } else if name.eq(&String::from_str("<")) {
                                    Expr::Lt(a, b)
                                } else if name.eq(&String::from_str("<=")) {
                                    Expr::Le(a, b)
                                } else if name.eq(&String::from_str(">")) {
                                    Expr::Gt(a, b)
                                } else if name.eq(&String::from_str(">=")) {
                                    Expr::Ge(a, b)
                                } else {
                                    Expr::Modulo(a, b)
                                }
                            } else {
                                lit_neg1_exec()
                            }
                        } else if name.eq(&String::from_str("if")) {
                            if args.len() >= 2 {
                                proof {
                                    assert(decreases_to!(*x => x->SExp_args));
                                    assert(x->SExp_args == *args);
                                    assert(decreases_to!(*args => args@));
                                    assert(decreases_to!(args@ => args@[0]));
                                    assert(decreases_to!(args@ => args@[1]));
                                    assert(decreases_to!(*x => args@[0]));
                                    assert(decreases_to!(*x => args@[1]));
                                }
                                let c0 = Box::new(Self::from_exp(&args[0]));
                                let t = flatten_exec(Self::from_exp(&args[1]));
                                let f: Vec<Expr> = if args.len() > 2 {
                                    proof {
                                        assert(decreases_to!(args@ => args@[2]));
                                        assert(decreases_to!(*x => args@[2]));
                                    }
                                    flatten_exec(Self::from_exp(&args[2]))
                                } else {
                                    let fv: Vec<Expr> = Vec::new();
                                    proof {
                                        assert(view_exprs(fv@) =~= Seq::<ExprV>::empty());
                                    }
                                    fv
                                };
                                let rr = Expr::IfElse(c0, t, f);
                                proof {
                                    assert(rr@ == from_exp_spec(x@));
                                }
                                rr
                            } else {
                                lit_neg1_exec()
                            }
                        } else if name.eq(&String::from_str("set")) {
                            if args.len() >= 2 {
                                proof {
                                    assert(decreases_to!(*x => x->SExp_args));
                                    assert(x->SExp_args == *args);
                                    assert(decreases_to!(*args => args@));
                                    assert(decreases_to!(args@ => args@[0]));
                                    assert(decreases_to!(args@ => args@[1]));
                                    assert(decreases_to!(*x => args@[0]));
                                    assert(decreases_to!(*x => args@[1]));
                                }
                                let c0 = Self::from_exp(&args[0]);
                                let ghost c0v = c0@;
                                match c0 {
                                    Expr::Identifier(nm) => {
                                        let b = Box::new(Self::from_exp(&args[1]));
                                        let rr = Expr::Assign(nm, b);
                                        proof {
                                            assert(c0v == cs[0]);
                                            assert(cs[0] is Identifier);
                                            assert(rr@ == from_exp_spec(x@));
                                        }
                                        rr
                                    },
                                    _ => {
                                        proof {
                                            assert(!(cs[0] is Identifier));
                                        }
                                        lit_neg1_exec()
                                    },
                                }
                            } else {
                                lit_neg1_exec()
                            }
                        } else if name.eq(&String::from_str("while")) {
                            if args.len() >= 1 {
                                proof {
                                    assert(decreases_to!(*x => x->SExp_args));
                                    assert(x->SExp_args == *args);
                                    assert(decreases_to!(*args => args@));
                                    assert(decreases_to!(args@ => args@[0]));
                                    assert(decreases_to!(*x => args@[0]));
                                }
                                let c0 = Box::new(Self::from_exp(&args[0]));
                                proof {
                                    assert(decreases_to!(*x => args@));
                                }
                                let body = map_range(args, 1);
                                let rr = Expr::WhileLoop(c0, body);
                                proof {
                                    assert(view_exprs(rr->WhileLoop_1@) =~= cs.subrange(
                                        1,
                                        cs.len() as int,
                                    ));
                                    assert(rr@ == from_exp_spec(x@));
                                }
                                rr
                            } else {
                                lit_neg1_exec()
                            }
                        } else if name.eq(&String::from_str("do")) {
                            proof {
                                assert(decreases_to!(*x => x->SExp_args));
                                assert(x->SExp_args == *args);
                                assert(decreases_to!(*args => args@));
                                assert(decreases_to!(*x => args@));
                            }
                            let body = map_range(args, 0);
                            proof {
                                assert(view_exprs(body@) =~= cs);
                            }
                            Expr::Sequence(body)
                        } else if name.eq(&String::from_str("array")) {
                            if args.len() >= 1 {
                                proof {
                                    assert(decreases_to!(*x => x->SExp_args));
                                    assert(x->SExp_args == *args);
                                    assert(decreases_to!(*args => args@));
                                    assert(decreases_to!(args@ => args@[0]));
                                    assert(decreases_to!(*x => args@[0]));
                                }
                                let c0 = Self::from_exp(&args[0]);
                                match c0 {
                                    Expr::Literal(contents) => {
                                        let lc = to_chars(contents.as_str());
                                        match parse_i64(&lc) {
                                            Some(n) => {
                                                if 0 <= n && n <= 4294967295i64 {
                                                    Expr::MakeArray(n as u32)
                                                } else {
                                                    lit_neg1_exec()
                                                }
                                            },
                                            None => lit_neg1_exec(),
                                        }
                                    },
                                    _ => lit_neg1_exec(),
                                }
                            } else {
                                lit_neg1_exec()
                            }
                        } else if name.eq(&String::from_str("array_get")) {
                            if args.len() >= 2 {
                                proof {
                                    assert(decreases_to!(*x => x->SExp_args));
                                    assert(x->SExp_args == *args);
                                    assert(decreases_to!(*args => args@));
                                    assert(decreases_to!(args@ => args@[0]));
                                    assert(decreases_to!(args@ => args@[1]));
                                    assert(decreases_to!(*x => args@[0]));
                                    assert(decreases_to!(*x => args@[1]));
                                }
                                let a = Box::new(Self::from_exp(&args[0]));
                                let b = Box::new(Self::from_exp(&args[1]));
                                Expr::GetArrayElem(a, b)
                            } else {
                                lit_neg1_exec()
                            }
                        } else if name.eq(&String::from_str("array_set")) {
                            if args.len() >= 3 {
                                proof {
                                    assert(decreases_to!(*x => x->SExp_args));
                                    assert(x->SExp_args == *args);
                                    assert(decreases_to!(*args => args@));
                                    assert(decreases_to!(args@ => args@[0]));
                                    assert(decreases_to!(args@ => args@[1]));
                                    assert(decreases_to!(args@ => args@[2]));
                                    assert(decreases_to!(*x => args@[0]));
                                    assert(decreases_to!(*x => args@[1]));
                                    assert(decreases_to!(*x => args@[2]));
                                }
                                let a = Box::new(Self::from_exp(&args[0]));
                                let b = Box::new(Self::from_exp(&args[1]));
                                let c = Box::new(Self::from_exp(&args[2]));
                                Expr::SetArrayElem(a, b, c)
                            } else {
                                lit_neg1_exec()
                            }
                        } else {
                            proof {
                                assert(decreases_to!(*x => x->SExp_args));
                                assert(x->SExp_args == *args);
                                assert(decreases_to!(*args => args@));
                                assert(decreases_to!(*x => args@));
                            }
                            let body = map_range(args, 0);
                            proof {
                                assert(view_exprs(body@) =~= cs);
                            }
                            Expr::Call(name.clone(), body)
                        }
                    },
                    _ => lit_neg1_exec(),
                }
            },
            _ => lit_neg1_exec(),
        }
    }
}

} // verus!
