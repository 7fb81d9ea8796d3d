//! A minimal evaluator over reader trees: it carries out `print`
//! forms and leaves everything else untouched. The text to show goes
//! to the caller, who owns the console.

use vstd::prelude::*;
use crate::parse::{Exp, ExpV, view_exps, render_exp, lemma_view_exps};

verus! {

/// Whether an expression is a `(print ...)` call form.
pub open spec fn is_print_form(e: ExpV) -> bool {
    e matches ExpV::SExp { kind, .. } && *kind == ExpV::Atom("print"@)
}

/// The lines a `print` form shows: the renderings of its positional
/// operands, in order, starting from `i`.
pub open spec fn print_renders(args: Seq<ExpV>, i: int) -> Seq<Seq<char>>
    decreases args.len() - i,
{
    if i < 0 || i >= args.len() {
        Seq::empty()
    } else {
        seq![render_exp(args[i])] + print_renders(args, i + 1)
    }
}

/// Evaluates one reader tree: a `(print ...)` form yields `Nil` and
/// the renderings of its operands as console lines; any other
/// expression yields itself and no output.
pub fn eval_expression(x: Exp) -> (r: (Exp, Vec<String>))
    ensures
        ({
            let (out, lines) = r;
            if is_print_form(x@) {
                &&& out@ == ExpV::Nil
                &&& crate::exp::view_strings(lines@) == print_renders(x@->SExp_args, 0)
            } else {
                &&& out@ == x@
                &&& lines@.len() == 0
            }
        }),
{
    match &x {
        Exp::SExp { kind, args, .. } => {
            let is_print = match &(**kind) {
                Exp::Atom(name) => {
                    let print_name = String::from_str("print");
                    let b = name.eq(&print_name);
                    proof {
                        assert((**kind)@ == ExpV::Atom(name@));
                        assert(b == ((**kind)@ == ExpV::Atom("print"@)));
                    }
                    b
                },
                _ => false,
            };
            proof {
                assert(x@ matches ExpV::SExp { kind: kv, .. } && *kv == (**kind)@);
                assert(is_print == is_print_form(x@));
            }
            if is_print {
                proof {
                    lemma_view_exps(args@);
                }
                let ghost av = view_exps(args@);
                let mut lines: Vec<String> = Vec::new();
                let mut i: usize = 0;
                while i < args.len()
                    invariant
                        i <= args@.len(),
                        av == view_exps(args@),
                        av.len() == args@.len(),
                        forall|j: int| 0 <= j < args@.len() ==> view_exps(args@)[j] == args@[j]@,
                        print_renders(av, 0) == crate::exp::view_strings(lines@) + print_renders(
                            av,
                            i as int,
                        ),
                    decreases args@.len() - i,
                {
                    let ghost l0 = lines@;
                    lines.push(args[i].render());
                    i = i + 1;
                    proof {
                        crate::exp::lemma_view_strings(l0);
                        crate::exp::lemma_view_strings(lines@);
                        assert(print_renders(av, 0) =~~= crate::exp::view_strings(lines@)
                            + print_renders(av, i as int));
                    }
                }
                proof {
                    assert(print_renders(av, 0) =~~= crate::exp::view_strings(lines@));
                    assert(x@->SExp_args == av);
                }
                (Exp::Nil, lines)
            } else {
                proof {
                    assert(!is_print_form(x@));
                }
                (x, Vec::new())
            }
        },
        _ => (x, Vec::new()),
    }
}

} // verus!
