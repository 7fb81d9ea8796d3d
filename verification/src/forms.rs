//! Recognized top-level forms: the shapes a reader result can take
//! before further processing.

use vstd::prelude::*;
use crate::parse::{Exp, ExpV, view_exps};

verus! {

/// A recognized top-level form: a `def` binding, or anything else.
#[derive(Debug)]
pub enum Form {
    Define(String, Exp),
    Unknown,
}

/// The mathematical shape of a `Form`.
#[verifier::ext_equal]
pub enum FormV {
    Define(Seq<char>, ExpV),
    Unknown,
}

impl View for Form {
    type V = FormV;

    open spec fn view(&self) -> FormV {
        match self {
            Form::Define(k, v) => FormV::Define(k@, v@),
            Form::Unknown => FormV::Unknown,
        }
    }
}

/// What `Form::from_exp` recognizes: a call form `(def key value)`
/// whose operator is the atom `def`, whose first operand is an atom
/// and whose second operand is present, becomes a `Define`; anything
/// else is `Unknown`.
pub open spec fn form_of(e: ExpV) -> FormV {
    match e {
        ExpV::SExp { kind, args, .. } => match *kind {
            ExpV::Atom(name) => if name == "def"@ && args.len() >= 2 && args[0] is Atom {
                FormV::Define(args[0]->Atom_0, args[1])
            } else {
                FormV::Unknown
            },
            _ => FormV::Unknown,
        },
        _ => FormV::Unknown,
    }
}

impl Form {
    /// Classifies a parsed expression as a recognized top-level form.
    pub fn from_exp(x: Exp) -> (r: Self)
        ensures
            r@ == form_of(x@),
    {
        match &x {
            Exp::SExp { kind, args, kwargs: _ } => {
                proof {
                    crate::parse::lemma_view_exps(args@);
                }
                match &(**kind) {
                    Exp::Atom(atom) => {
                        proof {
                            assert((**kind)@ == ExpV::Atom(atom@));
                            assert(x@ matches ExpV::SExp { kind: kv, .. } && *kv == (**kind)@);
                        }
                        let def_name = String::from_str("def");
                        if atom.eq(&def_name) && args.len() >= 2 {
                            match &args[0] {
                                Exp::Atom(key) => {
                                    proof {
                                        assert(view_exps(args@)[0] == ExpV::Atom(key@));
                                        assert(form_of(x@) == FormV::Define(
                                            key@,
                                            view_exps(args@)[1],
                                        ));
                                    }
                                    let value = args[1].duplicate();
                                    Self::Define(key.clone(), value)
                                },
                                _ => Self::Unknown,
                            }
                        } else {
                            Self::Unknown
                        }
                    },
                    _ => Self::Unknown,
                }
            },
            _ => Self::Unknown,
        }
    }
}

} // verus!
