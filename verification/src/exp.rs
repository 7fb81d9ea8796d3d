//! The runtime expression/value model and its recursive evaluator: a
//! tagged variant type that represents both parsed syntax and runtime
//! values, a flat name-to-value environment, and the catalogue of
//! native operations installed into a fresh environment.

use vstd::prelude::*;
use vstd::string::StringExecFns;
use crate::text::{render_int, render_i64};

verus! {

/// The native operation behind a `Func` or `Macro` value. Callables are
/// capability tags resolved by the evaluator, not code pointers.
#[derive(Clone, Copy, PartialEq, Eq, Structural, Debug)]
pub enum NativeOp {
    Add,
    Equal,
    Not,
    Format,
    Say,
    Print,
    MakeList,
    Save,
    Exit,
    Run,
    EvalArg,
    If,
    Bind,
    Do,
    MakeTable,
    Get,
    Quote,
    Match,
    Random,
    Load,
}

/// A runtime expression or value. `Nil` doubles as "false" and
/// "absent"; `Error` is a sentinel value distinct from a returned
/// error; a `List` is both bracket-literal data and the shape of a
/// call; a `Table` is a name-to-value mapping with unique keys.
#[derive(Debug)]
pub enum LoomExp {
    True,
    Nil,
    Error,
    Symbol(String),
    Keyword(String),
    Number(i64),
    FString(String),
    Table(Vec<(String, LoomExp)>),
    List(Vec<LoomExp>),
    Func(NativeOp),
    Macro(NativeOp),
}

/// The mathematical shape of a `LoomExp`.
#[verifier::ext_equal]
pub enum ValV {
    True,
    Nil,
    Error,
    Symbol(Seq<char>),
    Keyword(Seq<char>),
    Number(int),
    FString(Seq<char>),
    Table(Seq<(Seq<char>, ValV)>),
    List(Seq<ValV>),
    Func(NativeOp),
    Macro(NativeOp),
}

impl View for LoomExp {
    type V = ValV;

    open spec fn view(&self) -> ValV
        decreases self,
    {
        match self {
            LoomExp::True => ValV::True,
            LoomExp::Nil => ValV::Nil,
            LoomExp::Error => ValV::Error,
            LoomExp::Symbol(s) => ValV::Symbol(s@),
            LoomExp::Keyword(s) => ValV::Keyword(s@),
            LoomExp::Number(n) => ValV::Number(*n as int),
            LoomExp::FString(s) => ValV::FString(s@),
            LoomExp::Table(ps) => ValV::Table(view_pairs(ps@)),
            LoomExp::List(xs) => ValV::List(view_items(xs@)),
            LoomExp::Func(op) => ValV::Func(*op),
            LoomExp::Macro(op) => ValV::Macro(*op),
        }
    }
}

pub open spec fn view_items(s: Seq<LoomExp>) -> Seq<ValV>
    decreases s,
{
    if s.len() == 0 {
        Seq::empty()
    } else {
        seq![s[0]@] + view_items(s.drop_first())
    }
}

pub open spec fn view_pairs(s: Seq<(String, LoomExp)>) -> Seq<(Seq<char>, ValV)>
    decreases s,
{
    if s.len() == 0 {
        Seq::empty()
    } else {
        seq![(s[0].0@, s[0].1@)] + view_pairs(s.drop_first())
    }
}

pub proof fn lemma_view_items(s: Seq<LoomExp>)
    ensures
        view_items(s).len() == s.len(),
        forall|i: int| 0 <= i < s.len() ==> view_items(s)[i] == s[i]@,
    decreases s.len(),
{
    if s.len() > 0 {
        lemma_view_items(s.drop_first());
        assert(view_items(s) == seq![s[0]@] + view_items(s.drop_first()));
        assert forall|i: int| 0 <= i < s.len() implies view_items(s)[i] == s[i]@ by {
            if i > 0 {
                assert(s.drop_first()[i - 1] == s[i]);
                assert(view_items(s)[i] == view_items(s.drop_first())[i - 1]);
            } else {
                assert(view_items(s)[0] == s[0]@);
            }
        }
    }
}

pub proof fn lemma_view_items_push(s: Seq<LoomExp>, x: LoomExp)
    ensures
        view_items(s.push(x)) == view_items(s).push(x@),
{
    lemma_view_items(s);
    lemma_view_items(s.push(x));
    assert(view_items(s.push(x)) =~= view_items(s).push(x@));
}

proof fn lemma_view_pairs(s: Seq<(String, LoomExp)>)
    ensures
        view_pairs(s).len() == s.len(),
        forall|i: int|
            0 <= i < s.len() ==> view_pairs(s)[i] == (s[i].0@, s[i].1@),
    decreases s.len(),
{
    if s.len() > 0 {
        lemma_view_pairs(s.drop_first());
        assert(view_pairs(s) == seq![(s[0].0@, s[0].1@)] + view_pairs(s.drop_first()));
        assert forall|i: int| 0 <= i < s.len() implies view_pairs(s)[i] == (
            s[i].0@,
            s[i].1@,
        ) by {
            if i > 0 {
                assert(s.drop_first()[i - 1] == s[i]);
                assert(view_pairs(s)[i] == view_pairs(s.drop_first())[i - 1]);
            } else {
                assert(view_pairs(s)[0] == (s[0].0@, s[0].1@));
            }
        }
    }
}

/// Looks a key up among table pairs, scanning from `i`; the first
/// matching pair wins.
pub open spec fn tbl_lookup_from(ps: Seq<(Seq<char>, ValV)>, k: Seq<char>, i: int) -> Option<ValV>
    decreases ps.len() - i,
{
    if i < 0 || i >= ps.len() {
        None
    } else if ps[i].0 == k {
        Some(ps[i].1)
    } else {
        tbl_lookup_from(ps, k, i + 1)
    }
}

pub open spec fn tbl_lookup(ps: Seq<(Seq<char>, ValV)>, k: Seq<char>) -> Option<ValV> {
    tbl_lookup_from(ps, k, 0)
}

/// Structural equality as the language's `=` and `match` see it: same
/// tag and same contents; tables compare as mappings; `Func` and
/// `Macro` values are never equal to anything, including each other.
pub open spec fn val_eq(a: ValV, b: ValV) -> bool
    decreases a,
{
    match a {
        ValV::True => b is True,
        ValV::Nil => b is Nil,
        ValV::Error => b is Error,
        ValV::Symbol(x) => b matches ValV::Symbol(y) && x == y,
        ValV::Keyword(x) => b matches ValV::Keyword(y) && x == y,
        ValV::Number(x) => b matches ValV::Number(y) && x == y,
        ValV::FString(x) => b matches ValV::FString(y) && x == y,
        ValV::List(xs) => b matches ValV::List(ys) && xs.len() == ys.len() && (forall|i: int|
            0 <= i < xs.len() ==> val_eq(#[trigger] xs[i], ys[i])),
        ValV::Table(xs) => b matches ValV::Table(ys) && xs.len() == ys.len() && (forall|i: int|
            0 <= i < xs.len() ==> {
                &&& tbl_lookup(ys, (#[trigger] xs[i]).0) is Some
                &&& val_eq(xs[i].1, tbl_lookup(ys, xs[i].0)->0)
            }),
        ValV::Func(_) => false,
        ValV::Macro(_) => false,
    }
}

fn tbl_get<'a>(ps: &'a Vec<(String, LoomExp)>, k: &String) -> (r: Option<&'a LoomExp>)
    ensures
        match r {
            Some(v) => tbl_lookup(view_pairs(ps@), k@) == Some(v@),
            None => tbl_lookup(view_pairs(ps@), k@) is None,
        },
{
    proof {
        lemma_view_pairs(ps@);
    }
    let mut i: usize = 0;
    while i < ps.len()
        invariant
            i <= ps@.len(),
            view_pairs(ps@).len() == ps@.len(),
            forall|j: int| 0 <= j < ps@.len() ==> view_pairs(ps@)[j] == (ps@[j].0@, ps@[j].1@),
            tbl_lookup(view_pairs(ps@), k@) == tbl_lookup_from(view_pairs(ps@), k@, i as int),
        decreases ps@.len() - i,
    {
        if ps[i].0.eq(k) {
            return Some(&ps[i].1);
        }
        i = i + 1;
    }
    None
}

impl LoomExp {
    /// Structural equality of two values, per `val_eq`.
    pub fn eq(&self, other: &LoomExp) -> (r: bool)
        ensures
            r == val_eq(self@, other@),
        decreases self,
    {
        match (self, other) {
            (LoomExp::True, LoomExp::True) => true,
            (LoomExp::Nil, LoomExp::Nil) => true,
            (LoomExp::Error, LoomExp::Error) => true,
            (LoomExp::Symbol(x), LoomExp::Symbol(y)) => x.eq(y),
            (LoomExp::Keyword(x), LoomExp::Keyword(y)) => x.eq(y),
            (LoomExp::Number(x), LoomExp::Number(y)) => *x == *y,
            (LoomExp::FString(x), LoomExp::FString(y)) => x.eq(y),
            (LoomExp::List(xs), LoomExp::List(ys)) => {
                proof {
                    assert(*self == LoomExp::List(*xs));
                    lemma_view_items(xs@);
                    lemma_view_items(ys@);
                }
                if xs.len() != ys.len() {
                    return false;
                }
                let mut i: usize = 0;
                while i < xs.len()
                    invariant
                        i <= xs@.len(),
                        xs@.len() == ys@.len(),
                        *self == LoomExp::List(*xs),
                        *other == LoomExp::List(*ys),
                        view_items(xs@).len() == xs@.len(),
                        view_items(ys@).len() == ys@.len(),
                        forall|j: int| 0 <= j < xs@.len() ==> view_items(xs@)[j] == xs@[j]@,
                        forall|j: int| 0 <= j < ys@.len() ==> view_items(ys@)[j] == ys@[j]@,
                        forall|j: int|
                            0 <= j < i ==> val_eq(#[trigger] view_items(xs@)[j], view_items(ys@)[j]),
                    decreases xs@.len() - i,
                {
                    proof {
                        assert(decreases_to!(*self => self->List_0));
                        assert(self->List_0 == *xs);
                        assert(decreases_to!(*xs => xs@));
                        assert(decreases_to!(xs@ => xs@[i as int]));
                        assert(decreases_to!(*self => xs@[i as int]));
                    }
                    if !xs[i].eq(&ys[i]) {
                        proof {
                            assert(self@ == ValV::List(view_items(xs@)));
                            assert(other@ == ValV::List(view_items(ys@)));
                            assert(!val_eq(view_items(xs@)[i as int], view_items(ys@)[i as int]));
                        }
                        return false;
                    }
                    i = i + 1;
                }
                proof {
                    assert(self@ == ValV::List(view_items(xs@)));
                    assert(other@ == ValV::List(view_items(ys@)));
                }
                true
            },
            (LoomExp::Table(xs), LoomExp::Table(ys)) => {
                proof {
                    lemma_view_pairs(xs@);
                    lemma_view_pairs(ys@);
                }
                if xs.len() != ys.len() {
                    return false;
                }
                let mut i: usize = 0;
                while i < xs.len()
                    invariant
                        i <= xs@.len(),
                        xs@.len() == ys@.len(),
                        *self == LoomExp::Table(*xs),
                        *other == LoomExp::Table(*ys),
                        view_pairs(xs@).len() == xs@.len(),
                        view_pairs(ys@).len() == ys@.len(),
                        forall|j: int| 0 <= j < xs@.len() ==> view_pairs(xs@)[j] == (xs@[j].0@, xs@[j].1@),
                        forall|j: int| 0 <= j < ys@.len() ==> view_pairs(ys@)[j] == (ys@[j].0@, ys@[j].1@),
                        forall|j: int|
                            0 <= j < i ==> {
                                &&& tbl_lookup(view_pairs(ys@), (#[trigger] view_pairs(xs@)[j]).0) is Some
                                &&& val_eq(view_pairs(xs@)[j].1, tbl_lookup(view_pairs(ys@), view_pairs(xs@)[j].0)->0)
                            },
                    decreases xs@.len() - i,
                {
                    proof {
                        assert(decreases_to!(*self => self->Table_0));
                        assert(self->Table_0 == *xs);
                        assert(decreases_to!(*xs => xs@));
                        assert(decreases_to!(xs@ => xs@[i as int]));
                        assert(decreases_to!(xs@[i as int] => xs@[i as int].1));
                        assert(decreases_to!(*self => xs@[i as int].1));
                    }
                    match tbl_get(ys, &xs[i].0) {
                        Some(w) => {
                            if !xs[i].1.eq(w) {
                                proof {
                                    assert(self@ == ValV::Table(view_pairs(xs@)));
                                    assert(other@ == ValV::Table(view_pairs(ys@)));
                                    assert(view_pairs(xs@)[i as int].1 == xs@[i as int].1@);
                                    assert(!val_eq(
                                        view_pairs(xs@)[i as int].1,
                                        tbl_lookup(view_pairs(ys@), view_pairs(xs@)[i as int].0)->0,
                                    ));
                                }
                                return false;
                            }
                        },
                        None => {
                            proof {
                                assert(self@ == ValV::Table(view_pairs(xs@)));
                                assert(other@ == ValV::Table(view_pairs(ys@)));
                                assert(tbl_lookup(view_pairs(ys@), view_pairs(xs@)[i as int].0) is None);
                            }
                            return false;
                        },
                    }
                    i = i + 1;
                }
                proof {
                    assert(self@ == ValV::Table(view_pairs(xs@)));
                    assert(other@ == ValV::Table(view_pairs(ys@)));
                }
                true
            },
            _ => {
                proof {
                    assert(!val_eq(self@, other@));
                }
                false
            },
        }
    }

    /// A structural copy: the result has the same view as the original.
    pub fn duplicate(&self) -> (r: LoomExp)
        ensures
            r@ == self@,
        decreases self,
    {
        match self {
            LoomExp::True => LoomExp::True,
            LoomExp::Nil => LoomExp::Nil,
            LoomExp::Error => LoomExp::Error,
            LoomExp::Symbol(s) => LoomExp::Symbol(s.clone()),
            LoomExp::Keyword(s) => LoomExp::Keyword(s.clone()),
            LoomExp::Number(n) => LoomExp::Number(*n),
            LoomExp::FString(s) => LoomExp::FString(s.clone()),
            LoomExp::List(xs) => {
                let mut out: Vec<LoomExp> = Vec::new();
                let mut i: usize = 0;
                proof {
                    lemma_view_items(xs@);
                }
                while i < xs.len()
                    invariant
                        i <= xs@.len(),
                        *self == LoomExp::List(*xs),
                        out@.len() == i,
                        view_items(xs@).len() == xs@.len(),
                        forall|j: int| 0 <= j < xs@.len() ==> view_items(xs@)[j] == xs@[j]@,
                        forall|j: int| 0 <= j < i ==> out@[j]@ == xs@[j]@,
                    decreases xs@.len() - i,
                {
                    proof {
                        assert(decreases_to!(*self => self->List_0));
                        assert(self->List_0 == *xs);
                        assert(decreases_to!(*xs => xs@));
                        assert(decreases_to!(xs@ => xs@[i as int]));
                        assert(decreases_to!(*self => xs@[i as int]));
                    }
                    out.push(xs[i].duplicate());
                    i = i + 1;
                }
                proof {
                    lemma_view_items(out@);
                    assert(view_items(out@) =~= view_items(xs@));
                }
                LoomExp::List(out)
            },
            LoomExp::Table(ps) => {
                let mut out: Vec<(String, LoomExp)> = Vec::new();
                let mut i: usize = 0;
                proof {
                    lemma_view_pairs(ps@);
                }
                while i < ps.len()
                    invariant
                        i <= ps@.len(),
                        *self == LoomExp::Table(*ps),
                        out@.len() == i,
                        view_pairs(ps@).len() == ps@.len(),
                        forall|j: int| 0 <= j < ps@.len() ==> view_pairs(ps@)[j] == (ps@[j].0@, ps@[j].1@),
                        forall|j: int| 0 <= j < i ==> out@[j].0@ == ps@[j].0@ && out@[j].1@ == ps@[j].1@,
                    decreases ps@.len() - i,
                {
                    proof {
                        assert(decreases_to!(*self => self->Table_0));
                        assert(self->Table_0 == *ps);
                        assert(decreases_to!(*ps => ps@));
                        assert(decreases_to!(ps@ => ps@[i as int]));
                        assert(decreases_to!(ps@[i as int] => ps@[i as int].1));
                        assert(decreases_to!(*self => ps@[i as int].1));
                    }
                    out.push((ps[i].0.clone(), ps[i].1.duplicate()));
                    i = i + 1;
                }
                proof {
                    lemma_view_pairs(out@);
                    assert(view_pairs(out@) =~= view_pairs(ps@));
                }
                LoomExp::Table(out)
            },
            LoomExp::Func(op) => LoomExp::Func(*op),
            LoomExp::Macro(op) => LoomExp::Macro(*op),
        }
    }
}

} // verus!

verus! {

/// An evaluation error. `Exit` is the signal of the process-ending
/// operation; `DepthLimit` reports an exhausted recursion budget.
#[derive(Debug)]
pub enum LoomErr {
    UnboundSymbol(String),
    ArityError,
    TypeError,
    CallError,
    IoError(String),
    DepthLimit,
    Exit,
}

/// The mathematical shape of a `LoomErr`.
#[verifier::ext_equal]
pub enum ErrV {
    UnboundSymbol(Seq<char>),
    ArityError,
    TypeError,
    CallError,
    IoError(Seq<char>),
    DepthLimit,
    Exit,
}

impl View for LoomErr {
    type V = ErrV;

    open spec fn view(&self) -> ErrV {
        match self {
            LoomErr::UnboundSymbol(s) => ErrV::UnboundSymbol(s@),
            LoomErr::ArityError => ErrV::ArityError,
            LoomErr::TypeError => ErrV::TypeError,
            LoomErr::CallError => ErrV::CallError,
            LoomErr::IoError(s) => ErrV::IoError(s@),
            LoomErr::DepthLimit => ErrV::DepthLimit,
            LoomErr::Exit => ErrV::Exit,
        }
    }
}

/// A short diagnostic line for each error.
pub open spec fn err_text(e: ErrV) -> Seq<char> {
    match e {
        ErrV::UnboundSymbol(s) => "unbound symbol "@ + s,
        ErrV::ArityError => "arity error"@,
        ErrV::TypeError => "type error"@,
        ErrV::CallError => "call error"@,
        ErrV::IoError(s) => "cannot read "@ + s,
        ErrV::DepthLimit => "recursion limit reached"@,
        ErrV::Exit => "exit"@,
    }
}

impl LoomErr {
    /// Renders the error as a diagnostic line.
    pub fn describe(&self) -> (r: String)
        ensures
            r@ == err_text(self@),
    {
        match self {
            LoomErr::UnboundSymbol(s) => {
                let mut out = String::from_str("unbound symbol ");
                out.append(s.as_str());
                out
            },
            LoomErr::ArityError => String::from_str("arity error"),
            LoomErr::TypeError => String::from_str("type error"),
            LoomErr::CallError => String::from_str("call error"),
            LoomErr::IoError(s) => {
                let mut out = String::from_str("cannot read ");
                out.append(s.as_str());
                out
            },
            LoomErr::DepthLimit => String::from_str("recursion limit reached"),
            LoomErr::Exit => String::from_str("exit"),
        }
    }
}

/// The textual rendering of a value: the display form that `format`,
/// `print`, `save` and the writer of scripts see.
pub open spec fn render_val(v: ValV) -> Seq<char>
    decreases v, 0int,
{
    match v {
        ValV::True => "true"@,
        ValV::Nil => "nil"@,
        ValV::Error => "error"@,
        ValV::Symbol(s) => s,
        ValV::Keyword(k) => seq!['#'] + k,
        ValV::Number(n) => render_int(n),
        ValV::FString(f) => seq!['"'] + f + seq!['"'],
        ValV::List(xs) => seq!['['] + render_items_from(xs, 0) + seq![']'],
        ValV::Table(ps) => seq!['{'] + render_pairs_from(ps, 0) + seq!['}'],
        ValV::Func(_) => "Function {}"@,
        ValV::Macro(_) => "Macro {}"@,
    }
}

/// The renderings of `xs[i..]`, joined by single spaces.
pub open spec fn render_items_from(xs: Seq<ValV>, i: int) -> Seq<char>
    decreases xs, xs.len() - i,
{
    if i < 0 || i >= xs.len() {
        Seq::empty()
    } else if i == xs.len() - 1 {
        render_val(xs[i])
    } else {
        render_val(xs[i]) + seq![' '] + render_items_from(xs, i + 1)
    }
}

/// The renderings of table pairs `ps[i..]`, each as `#key value`,
/// joined by single spaces.
pub open spec fn render_pairs_from(ps: Seq<(Seq<char>, ValV)>, i: int) -> Seq<char>
    decreases ps, ps.len() - i,
{
    if i < 0 || i >= ps.len() {
        Seq::empty()
    } else if i == ps.len() - 1 {
        seq!['#'] + ps[i].0 + seq![' '] + render_val(ps[i].1)
    } else {
        seq!['#'] + ps[i].0 + seq![' '] + render_val(ps[i].1) + seq![' '] + render_pairs_from(
            ps,
            i + 1,
        )
    }
}

impl LoomExp {
    /// Renders the value to its display form.
    pub fn render(&self) -> (r: String)
        ensures
            r@ == render_val(self@),
        decreases self,
    {
        match self {
            LoomExp::True => String::from_str("true"),
            LoomExp::Nil => String::from_str("nil"),
            LoomExp::Error => String::from_str("error"),
            LoomExp::Symbol(s) => s.clone(),
            LoomExp::Keyword(k) => {
                let mut out = String::from_str("#");
                out.append(k.as_str());
                proof {
                    reveal_strlit("#");
                    assert(out@ =~= render_val(self@));
                }
                out
            },
            LoomExp::Number(n) => render_i64(*n),
            LoomExp::FString(f) => {
                let mut out = String::from_str("\"");
                out.append(f.as_str());
                out.push('"');
                proof {
                    reveal_strlit("\"");
                    assert(out@ =~= render_val(self@));
                }
                out
            },
            LoomExp::List(xs) => {
                proof {
                    lemma_view_items(xs@);
                }
                let ghost vxs = view_items(xs@);
                let mut out = String::from_str("[");
                proof {
                    reveal_strlit("[");
                }
                let mut i: usize = 0;
                while i < xs.len()
                    invariant
                        i <= xs@.len(),
                        *self == LoomExp::List(*xs),
                        vxs == view_items(xs@),
                        vxs.len() == xs@.len(),
                        forall|j: int| 0 <= j < xs@.len() ==> view_items(xs@)[j] == xs@[j]@,
                        out@ + render_items_from(vxs, i as int) == seq!['['] + render_items_from(
                            vxs,
                            0,
                        ),
                    decreases xs@.len() - i,
                {
                    proof {
                        assert(decreases_to!(*self => self->List_0));
                        assert(self->List_0 == *xs);
                        assert(decreases_to!(*xs => xs@));
                        assert(decreases_to!(xs@ => xs@[i as int]));
                        assert(decreases_to!(*self => xs@[i as int]));
                    }
                    let piece = xs[i].render();
                    out.append(piece.as_str());
                    if i + 1 < xs.len() {
                        out.push(' ');
                    }
                    proof {
                        assert(out@ + render_items_from(vxs, i as int + 1) =~= seq!['[']
                            + render_items_from(vxs, 0));
                    }
                    i = i + 1;
                }
                out.push(']');
                proof {
                    assert(out@ =~= render_val(self@));
                }
                out
            },
            LoomExp::Table(ps) => {
                proof {
                    lemma_view_pairs(ps@);
                }
                let ghost vps = view_pairs(ps@);
                let mut out = String::from_str("{");
                proof {
                    reveal_strlit("{");
                }
                let mut i: usize = 0;
                while i < ps.len()
                    invariant
                        i <= ps@.len(),
                        *self == LoomExp::Table(*ps),
                        vps == view_pairs(ps@),
                        vps.len() == ps@.len(),
                        forall|j: int| 0 <= j < ps@.len() ==> view_pairs(ps@)[j] == (ps@[j].0@, ps@[j].1@),
                        out@ + render_pairs_from(vps, i as int) == seq!['{'] + render_pairs_from(
                            vps,
                            0,
                        ),
                    decreases ps@.len() - i,
                {
                    proof {
                        assert(decreases_to!(*self => self->Table_0));
                        assert(self->Table_0 == *ps);
                        assert(decreases_to!(*ps => ps@));
                        assert(decreases_to!(ps@ => ps@[i as int]));
                        assert(decreases_to!(ps@[i as int] => ps@[i as int].1));
                        assert(decreases_to!(*self => ps@[i as int].1));
                    }
                    out.push('#');
                    out.append(ps[i].0.as_str());
                    out.push(' ');
                    let piece = ps[i].1.render();
                    out.append(piece.as_str());
                    if i + 1 < ps.len() {
                        out.push(' ');
                    }
                    proof {
                        assert(out@ + render_pairs_from(vps, i as int + 1) =~= seq!['{']
                            + render_pairs_from(vps, 0));
                    }
                    i = i + 1;
                }
                out.push('}');
                proof {
                    assert(out@ =~= render_val(self@));
                }
                out
            },
            LoomExp::Func(_) => String::from_str("Function {}"),
            LoomExp::Macro(_) => String::from_str("Macro {}"),
        }
    }
}

} // verus!

verus! {

/// The flat name-to-value environment of one evaluation session,
/// together with the session's console output and its file store.
#[derive(Debug)]
pub struct LoomEnv {
    data: Vec<(String, LoomExp)>,
    output: Vec<String>,
    files: Vec<(String, String)>,
}

/// The mathematical shape of a `LoomEnv`.
#[verifier::ext_equal]
pub struct EnvV {
    pub data: Seq<(Seq<char>, ValV)>,
    pub output: Seq<Seq<char>>,
    pub files: Seq<(Seq<char>, Seq<char>)>,
}

pub open spec fn view_strings(s: Seq<String>) -> Seq<Seq<char>>
    decreases s,
{
    if s.len() == 0 {
        Seq::empty()
    } else {
        seq![s[0]@] + view_strings(s.drop_first())
    }
}

pub proof fn lemma_view_strings(s: Seq<String>)
    ensures
        view_strings(s).len() == s.len(),
        forall|i: int| 0 <= i < s.len() ==> view_strings(s)[i] == s[i]@,
    decreases s.len(),
{
    if s.len() > 0 {
        lemma_view_strings(s.drop_first());
        assert(view_strings(s) == seq![s[0]@] + view_strings(s.drop_first()));
        assert forall|i: int| 0 <= i < s.len() implies view_strings(s)[i] == s[i]@ by {
            if i > 0 {
                assert(s.drop_first()[i - 1] == s[i]);
                assert(view_strings(s)[i] == view_strings(s.drop_first())[i - 1]);
            } else {
                assert(view_strings(s)[0] == s[0]@);
            }
        }
    }
}

pub open spec fn view_file_pairs(s: Seq<(String, String)>) -> Seq<(Seq<char>, Seq<char>)>
    decreases s,
{
    if s.len() == 0 {
        Seq::empty()
    } else {
        seq![(s[0].0@, s[0].1@)] + view_file_pairs(s.drop_first())
    }
}

proof fn lemma_view_file_pairs(s: Seq<(String, String)>)
    ensures
        view_file_pairs(s).len() == s.len(),
        forall|i: int| 0 <= i < s.len() ==> view_file_pairs(s)[i] == (s[i].0@, s[i].1@),
    decreases s.len(),
{
    if s.len() > 0 {
        lemma_view_file_pairs(s.drop_first());
        assert(view_file_pairs(s) == seq![(s[0].0@, s[0].1@)] + view_file_pairs(s.drop_first()));
        assert forall|i: int| 0 <= i < s.len() implies view_file_pairs(s)[i] == (
            s[i].0@,
            s[i].1@,
        ) by {
            if i > 0 {
                assert(s.drop_first()[i - 1] == s[i]);
                assert(view_file_pairs(s)[i] == view_file_pairs(s.drop_first())[i - 1]);
            } else {
                assert(view_file_pairs(s)[0] == (s[0].0@, s[0].1@));
            }
        }
    }
}

impl View for LoomEnv {
    type V = EnvV;

    closed spec fn view(&self) -> EnvV {
        EnvV {
            data: view_pairs(self.data@),
            output: view_strings(self.output@),
            files: view_file_pairs(self.files@),
        }
    }
}

/// Binding a name: the first pair with the key is replaced, or a new
/// pair is appended.
pub open spec fn upsert_from(
    ps: Seq<(Seq<char>, ValV)>,
    k: Seq<char>,
    v: ValV,
    i: int,
) -> Seq<(Seq<char>, ValV)>
    decreases ps.len() - i,
{
    if i < 0 || i >= ps.len() {
        ps.push((k, v))
    } else if ps[i].0 == k {
        ps.update(i, (k, v))
    } else {
        upsert_from(ps, k, v, i + 1)
    }
}

pub open spec fn env_insert(ps: Seq<(Seq<char>, ValV)>, k: Seq<char>, v: ValV) -> Seq<
    (Seq<char>, ValV),
> {
    upsert_from(ps, k, v, 0)
}

/// The file store: lookup and binding, first match wins.
pub open spec fn file_lookup_from(
    fs: Seq<(Seq<char>, Seq<char>)>,
    k: Seq<char>,
    i: int,
) -> Option<Seq<char>>
    decreases fs.len() - i,
{
    if i < 0 || i >= fs.len() {
        None
    } else if fs[i].0 == k {
        Some(fs[i].1)
    } else {
        file_lookup_from(fs, k, i + 1)
    }
}

pub open spec fn file_lookup(fs: Seq<(Seq<char>, Seq<char>)>, k: Seq<char>) -> Option<Seq<char>> {
    file_lookup_from(fs, k, 0)
}

pub open spec fn file_upsert_from(
    fs: Seq<(Seq<char>, Seq<char>)>,
    k: Seq<char>,
    v: Seq<char>,
    i: int,
) -> Seq<(Seq<char>, Seq<char>)>
    decreases fs.len() - i,
{
    if i < 0 || i >= fs.len() {
        fs.push((k, v))
    } else if fs[i].0 == k {
        fs.update(i, (k, v))
    } else {
        file_upsert_from(fs, k, v, i + 1)
    }
}

pub open spec fn file_insert(fs: Seq<(Seq<char>, Seq<char>)>, k: Seq<char>, v: Seq<char>) -> Seq<
    (Seq<char>, Seq<char>),
> {
    file_upsert_from(fs, k, v, 0)
}

/// The sum of a run of number values, failing on a non-number or when
/// a partial sum leaves the machine range.
pub open spec fn sum_vals(args: Seq<ValV>, i: int, acc: int) -> Result<int, ErrV>
    decreases args.len() - i,
{
    if i < 0 || i >= args.len() {
        Ok(acc)
    } else {
        match args[i] {
            ValV::Number(n) => if i64::MIN <= acc + n <= i64::MAX {
                sum_vals(args, i + 1, acc + n)
            } else {
                Err(ErrV::TypeError)
            },
            _ => Err(ErrV::TypeError),
        }
    }
}

/// Whether every later argument is structurally equal to the first.
pub open spec fn all_equal_from(args: Seq<ValV>, i: int) -> bool
    decreases args.len() - i,
{
    if i < 0 || i >= args.len() {
        true
    } else {
        val_eq(args[0], args[i]) && all_equal_from(args, i + 1)
    }
}

/// The concatenated display renderings of a run of arguments.
pub open spec fn fmt_vals(args: Seq<ValV>, i: int) -> Seq<char>
    decreases args.len() - i,
{
    if i < 0 || i >= args.len() {
        Seq::empty()
    } else {
        render_val(args[i]) + fmt_vals(args, i + 1)
    }
}

/// What `print` shows for one value: a formatted string prints its
/// raw text, everything else its display form.
pub open spec fn print_line(v: ValV) -> Seq<char> {
    match v {
        ValV::FString(f) => f,
        _ => render_val(v),
    }
}

pub open spec fn print_lines(args: Seq<ValV>, i: int) -> Seq<Seq<char>>
    decreases args.len() - i,
{
    if i < 0 || i >= args.len() {
        Seq::empty()
    } else {
        seq![print_line(args[i])] + print_lines(args, i + 1)
    }
}

/// The console line of a `say` call.
pub open spec fn say_line(speaker: Seq<char>, text: Seq<char>) -> Seq<char> {
    speaker + seq![':', ' '] + text
}

/// A chained table lookup: each further operand must be a raw symbol,
/// each intermediate value a table; a missing key at the final step is
/// `Nil`.
pub open spec fn get_chain(cur: Option<ValV>, items: Seq<ValV>, i: int) -> Result<ValV, ErrV>
    decreases items.len() - i,
{
    if i < 0 || i >= items.len() {
        match cur {
            Some(v) => Ok(v),
            None => Ok(ValV::Nil),
        }
    } else {
        match items[i] {
            ValV::Symbol(k) => match cur {
                Some(ValV::Table(ps)) => get_chain(tbl_lookup(ps, k), items, i + 1),
                _ => Err(ErrV::TypeError),
            },
            _ => Err(ErrV::TypeError),
        }
    }
}

/// What reading a stored file yields: the tokenizer and the tree
/// builder applied to its text.
pub open spec fn parse_stored(text: Seq<char>, as_list: bool) -> Result<ValV, ErrV> {
    match crate::parser::tokenize_spec(text) {
        Err(_) => Err(ErrV::TypeError),
        Ok(toks) => match crate::parser::t2e_spec(toks, as_list) {
            Err(_) => Err(ErrV::TypeError),
            Ok(v) => Ok(v),
        },
    }
}

/// The diagnostic line that the script runner logs for a failed form.
pub open spec fn run_err_line(e: ErrV) -> Seq<char> {
    seq!['E', 'r', 'r', 'o', 'r', ':', ' '] + err_text(e)
}

} // verus!

verus! {

/// A trigger anchor for the existential steps of the evaluation
/// relation: proofs name a step's witnesses through it.
pub open spec fn chosen<A>(x: A) -> bool {
    true
}

/// The evaluation relation: `evals_to(e, env, fuel, r, env2)` holds
/// when evaluating `e` against `env` can produce the result `r` and
/// leave the environment as `env2`. It is a relation, not a function,
/// because the `random` operation may pick any element of its list.
/// `fuel` bounds the re-entrant evaluations that `eval`, `random`,
/// `load` and `run` start on computed values; structural recursion
/// into subterms does not consume it.
pub open spec fn evals_to(e: ValV, env: EnvV, fuel: nat, r: Result<ValV, ErrV>, env2: EnvV) -> bool
    decreases fuel, e, 2int, 0int,
{
    if fuel == 0 {
        r == Err::<ValV, ErrV>(ErrV::DepthLimit) && env2 == env
    } else {
        match e {
            ValV::True => r == Ok::<ValV, ErrV>(ValV::True) && env2 == env,
            ValV::Nil => r == Ok::<ValV, ErrV>(ValV::Nil) && env2 == env,
            ValV::Error => r == Ok::<ValV, ErrV>(ValV::Error) && env2 == env,
            ValV::Keyword(_) => r == Ok::<ValV, ErrV>(e) && env2 == env,
            ValV::Number(_) => r == Ok::<ValV, ErrV>(e) && env2 == env,
            ValV::FString(_) => r == Ok::<ValV, ErrV>(e) && env2 == env,
            ValV::Table(_) => r == Ok::<ValV, ErrV>(e) && env2 == env,
            ValV::Symbol(s) => match tbl_lookup(env.data, s) {
                Some(v) => r == Ok::<ValV, ErrV>(v) && env2 == env,
                None => r == Err::<ValV, ErrV>(ErrV::UnboundSymbol(s)) && env2 == env,
            },
            ValV::Func(_) => r == Err::<ValV, ErrV>(ErrV::CallError) && env2 == env,
            ValV::Macro(_) => r == Err::<ValV, ErrV>(ErrV::CallError) && env2 == env,
            ValV::List(items) => if items.len() == 0 {
                r == Ok::<ValV, ErrV>(ValV::Nil) && env2 == env
            } else {
                exists|fr: Result<ValV, ErrV>, envm: EnvV|
                    {
                        &&& #[trigger] chosen((fr, envm))
                        &&& evals_to(items[0], env, fuel, fr, envm)
                        &&& match fr {
                            Err(fe) => r == Err::<ValV, ErrV>(fe) && env2 == envm,
                            Ok(ValV::Func(op)) => exists|
                                ar: Result<Seq<ValV>, ErrV>,
                                enva: EnvV,
                            |
                                {
                                    &&& #[trigger] chosen((ar, enva))
                                    &&& eval_args_rel(items, 1, envm, fuel, ar, enva)
                                    &&& match ar {
                                        Err(ae) => r == Err::<ValV, ErrV>(ae) && env2 == enva,
                                        Ok(vals) => apply_rel(
                                            op,
                                            vals,
                                            enva,
                                            (fuel - 1) as nat,
                                            r,
                                            env2,
                                        ),
                                    }
                                },
                            Ok(ValV::Macro(op)) => macro_rel(op, items, envm, fuel, r, env2),
                            Ok(_) => r == Ok::<ValV, ErrV>(e) && env2 == envm,
                        }
                    }
            },
        }
    }
}

/// Left-to-right evaluation of the operands `items[i..]`, stopping at
/// the first error.
pub open spec fn eval_args_rel(
    items: Seq<ValV>,
    i: int,
    env: EnvV,
    fuel: nat,
    r: Result<Seq<ValV>, ErrV>,
    env2: EnvV,
) -> bool
    decreases fuel, items, 0int, items.len() - i,
{
    if i < 0 || i >= items.len() {
        r == Ok::<Seq<ValV>, ErrV>(Seq::<ValV>::empty()) && env2 == env
    } else {
        exists|vr: Result<ValV, ErrV>, envm: EnvV|
            {
                &&& #[trigger] chosen((vr, envm))
                &&& evals_to(items[i], env, fuel, vr, envm)
                &&& match vr {
                    Err(e) => r == Err::<Seq<ValV>, ErrV>(e) && env2 == envm,
                    Ok(v) => (exists|vs: Seq<ValV>|
                        {
                            &&& #[trigger] chosen(vs)
                            &&& eval_args_rel(
                                items,
                                i + 1,
                                envm,
                                fuel,
                                Ok::<Seq<ValV>, ErrV>(vs),
                                env2,
                            )
                            &&& r == Ok::<Seq<ValV>, ErrV>(seq![v] + vs)
                        }) || (exists|e2: ErrV|
                        {
                            &&& #[trigger] chosen(e2)
                            &&& eval_args_rel(
                                items,
                                i + 1,
                                envm,
                                fuel,
                                Err::<Seq<ValV>, ErrV>(e2),
                                env2,
                            )
                            &&& r == Err::<Seq<ValV>, ErrV>(e2)
                        }),
                }
            }
    }
}

/// Sequential evaluation of the operands of `do`: the last value, or
/// `True` for an empty body.
pub open spec fn do_rel(
    items: Seq<ValV>,
    i: int,
    env: EnvV,
    fuel: nat,
    r: Result<ValV, ErrV>,
    env2: EnvV,
) -> bool
    decreases fuel, items, 0int, items.len() - i,
{
    if i < 0 || i >= items.len() {
        r == Ok::<ValV, ErrV>(ValV::True) && env2 == env
    } else {
        exists|vr: Result<ValV, ErrV>, envm: EnvV|
            {
                &&& #[trigger] chosen((vr, envm))
                &&& evals_to(items[i], env, fuel, vr, envm)
                &&& match vr {
                    Err(e) => r == Err::<ValV, ErrV>(e) && env2 == envm,
                    Ok(v) => if i == items.len() - 1 {
                        r == Ok::<ValV, ErrV>(v) && env2 == envm
                    } else {
                        do_rel(items, i + 1, envm, fuel, r, env2)
                    },
                }
            }
    }
}

/// The scan of `match`: the first pattern list whose head equals the
/// subject has its body evaluated; no match yields `Nil`.
pub open spec fn match_rel(
    cond: ValV,
    items: Seq<ValV>,
    i: int,
    env: EnvV,
    fuel: nat,
    r: Result<ValV, ErrV>,
    env2: EnvV,
) -> bool
    decreases fuel, items, 0int, items.len() - i,
{
    if i < 0 || i >= items.len() {
        r == Ok::<ValV, ErrV>(ValV::Nil) && env2 == env
    } else {
        match items[i] {
            ValV::List(pl) => if pl.len() == 0 {
                r == Err::<ValV, ErrV>(ErrV::ArityError) && env2 == env
            } else if val_eq(pl[0], cond) {
                if pl.len() < 2 {
                    r == Err::<ValV, ErrV>(ErrV::ArityError) && env2 == env
                } else {
                    evals_to(pl[1], env, fuel, r, env2)
                }
            } else {
                match_rel(cond, items, i + 1, env, fuel, r, env2)
            },
            _ => r == Err::<ValV, ErrV>(ErrV::TypeError) && env2 == env,
        }
    }
}

/// The pair walk of `table`: raw keyword keys, evaluated values,
/// later bindings of a repeated key replacing earlier ones.
pub open spec fn table_rel(
    items: Seq<ValV>,
    i: int,
    env: EnvV,
    fuel: nat,
    acc: Seq<(Seq<char>, ValV)>,
    r: Result<Seq<(Seq<char>, ValV)>, ErrV>,
    env2: EnvV,
) -> bool
    decreases fuel, items, 0int, items.len() - i,
{
    if i < 0 || i >= items.len() {
        r == Ok::<Seq<(Seq<char>, ValV)>, ErrV>(acc) && env2 == env
    } else {
        match items[i] {
            ValV::Keyword(k) => if i + 1 >= items.len() {
                r == Err::<Seq<(Seq<char>, ValV)>, ErrV>(ErrV::ArityError) && env2 == env
            } else {
                exists|vr: Result<ValV, ErrV>, envm: EnvV|
                    {
                        &&& #[trigger] chosen((vr, envm))
                        &&& evals_to(items[i + 1], env, fuel, vr, envm)
                        &&& match vr {
                            Err(e) => r == Err::<Seq<(Seq<char>, ValV)>, ErrV>(e) && env2 == envm,
                            Ok(v) => table_rel(
                                items,
                                i + 2,
                                envm,
                                fuel,
                                env_insert(acc, k, v),
                                r,
                                env2,
                            ),
                        }
                    }
            },
            _ => r == Err::<Seq<(Seq<char>, ValV)>, ErrV>(ErrV::TypeError) && env2 == env,
        }
    }
}

/// The runner's walk over a file's top-level forms: each is evaluated
/// in turn, a failure is logged to the output and the walk goes on.
pub open spec fn run_forms_rel(
    forms: Seq<ValV>,
    i: int,
    env: EnvV,
    fuel: nat,
    env2: EnvV,
) -> bool
    decreases fuel, forms, 0int, forms.len() - i,
{
    if i < 0 || i >= forms.len() {
        env2 == env
    } else {
        exists|vr: Result<ValV, ErrV>, envm: EnvV|
            {
                &&& #[trigger] chosen((vr, envm))
                &&& evals_to(forms[i], env, fuel, vr, envm)
                &&& match vr {
                    Ok(_) => run_forms_rel(forms, i + 1, envm, fuel, env2),
                    Err(e) => run_forms_rel(
                        forms,
                        i + 1,
                        EnvV { output: envm.output.push(run_err_line(e)), ..envm },
                        fuel,
                        env2,
                    ),
                }
            }
    }
}

/// What invoking a function operation on evaluated arguments does.
pub open spec fn apply_rel(
    op: NativeOp,
    vals: Seq<ValV>,
    env: EnvV,
    fuel: nat,
    r: Result<ValV, ErrV>,
    env2: EnvV,
) -> bool
    decreases fuel, vals, 3int, 0int,
{
    match op {
        NativeOp::Add => env2 == env && r == match sum_vals(vals, 0, 0) {
            Ok(s) => Ok::<ValV, ErrV>(ValV::Number(s)),
            Err(e) => Err::<ValV, ErrV>(e),
        },
        NativeOp::Equal => env2 == env && r == if vals.len() == 0 {
            Err::<ValV, ErrV>(ErrV::ArityError)
        } else if all_equal_from(vals, 1) {
            Ok::<ValV, ErrV>(ValV::True)
        } else {
            Ok::<ValV, ErrV>(ValV::Nil)
        },
        NativeOp::Not => env2 == env && r == if vals.len() != 1 {
            Err::<ValV, ErrV>(ErrV::ArityError)
        } else if vals[0] is Nil {
            Ok::<ValV, ErrV>(ValV::True)
        } else {
            Ok::<ValV, ErrV>(ValV::Nil)
        },
        NativeOp::Format => env2 == env && r == Ok::<ValV, ErrV>(
            ValV::FString(fmt_vals(vals, 0)),
        ),
        NativeOp::MakeList => env2 == env && r == Ok::<ValV, ErrV>(ValV::List(vals)),
        NativeOp::Print => env2 == EnvV { output: env.output + print_lines(vals, 0), ..env } && r
            == Ok::<ValV, ErrV>(ValV::Nil),
        NativeOp::Say => if vals.len() == 2 && vals[0] is FString && vals[1] is FString {
            env2 == EnvV {
                output: env.output.push(say_line(vals[0]->FString_0, vals[1]->FString_0)),
                ..env
            } && r == Ok::<ValV, ErrV>(ValV::Nil)
        } else if vals.len() != 2 {
            env2 == env && r == Err::<ValV, ErrV>(ErrV::ArityError)
        } else {
            env2 == env && r == Err::<ValV, ErrV>(ErrV::TypeError)
        },
        NativeOp::Save => if vals.len() < 2 {
            env2 == env && r == Err::<ValV, ErrV>(ErrV::ArityError)
        } else if !(vals[1] is FString) {
            env2 == env && r == Err::<ValV, ErrV>(ErrV::TypeError)
        } else {
            env2 == EnvV {
                files: file_insert(env.files, vals[1]->FString_0, render_val(vals[0])),
                ..env
            } && r == Ok::<ValV, ErrV>(ValV::Nil)
        },
        NativeOp::Exit => env2 == EnvV {
            output: env.output.push("Goodbye for now!"@),
            ..env
        } && r == Err::<ValV, ErrV>(ErrV::Exit),
        NativeOp::EvalArg => if vals.len() == 0 {
            env2 == env && r == Err::<ValV, ErrV>(ErrV::ArityError)
        } else {
            evals_to(vals[0], env, fuel, r, env2)
        },
        NativeOp::Run => if vals.len() == 0 || !(vals[0] is FString) {
            env2 == env && r == Err::<ValV, ErrV>(ErrV::TypeError)
        } else {
            let name = vals[0]->FString_0;
            match file_lookup(env.files, name) {
                None => env2 == env && r == Err::<ValV, ErrV>(ErrV::IoError(name)),
                Some(text) => match parse_stored(text, true) {
                    Err(_) => env2 == env && r == Err::<ValV, ErrV>(ErrV::IoError(name)),
                    Ok(ValV::List(forms)) => if fuel == 0 {
                        env2 == env && r == Err::<ValV, ErrV>(ErrV::DepthLimit)
                    } else {
                        run_forms_rel(forms, 0, env, (fuel - 1) as nat, env2) && r == Ok::<
                            ValV,
                            ErrV,
                        >(ValV::Nil)
                    },
                    Ok(_) => env2 == env && r == Ok::<ValV, ErrV>(ValV::Nil),
                },
            }
        },
        _ => env2 == env && r == Err::<ValV, ErrV>(ErrV::CallError),
    }
}

/// What invoking a macro operation does; `items` is the whole call
/// form, whose operands are `items[1..]`, raw.
pub open spec fn macro_rel(
    op: NativeOp,
    items: Seq<ValV>,
    env: EnvV,
    fuel: nat,
    r: Result<ValV, ErrV>,
    env2: EnvV,
) -> bool
    decreases fuel, items, 1int, 0int,
{
    match op {
        NativeOp::If => if items.len() < 2 {
            env2 == env && r == Err::<ValV, ErrV>(ErrV::ArityError)
        } else {
            exists|cr: Result<ValV, ErrV>, envm: EnvV|
                {
                    &&& #[trigger] chosen((cr, envm))
                    &&& evals_to(items[1], env, fuel, cr, envm)
                    &&& match cr {
                        Err(e) => r == Err::<ValV, ErrV>(e) && env2 == envm,
                        Ok(ValV::Nil) => if items.len() >= 4 {
                            evals_to(items[3], envm, fuel, r, env2)
                        } else {
                            r == Ok::<ValV, ErrV>(ValV::Nil) && env2 == envm
                        },
                        Ok(_) => if items.len() >= 3 {
                            evals_to(items[2], envm, fuel, r, env2)
                        } else {
                            r == Err::<ValV, ErrV>(ErrV::ArityError) && env2 == envm
                        },
                    }
                }
        },
        NativeOp::Bind => if items.len() < 2 {
            env2 == env && r == Err::<ValV, ErrV>(ErrV::ArityError)
        } else if !(items[1] is Symbol) {
            env2 == env && r == Err::<ValV, ErrV>(ErrV::TypeError)
        } else if items.len() < 3 {
            env2 == env && r == Err::<ValV, ErrV>(ErrV::ArityError)
        } else {
            exists|vr: Result<ValV, ErrV>, envm: EnvV|
                {
                    &&& #[trigger] chosen((vr, envm))
                    &&& evals_to(items[2], env, fuel, vr, envm)
                    &&& match vr {
                        Err(e) => r == Err::<ValV, ErrV>(e) && env2 == envm,
                        Ok(v) => env2 == EnvV {
                            data: env_insert(envm.data, items[1]->Symbol_0, v),
                            ..envm
                        } && r == Ok::<ValV, ErrV>(ValV::Nil),
                    }
                }
        },
        NativeOp::Do => do_rel(items, 1, env, fuel, r, env2),
        NativeOp::MakeTable => if (items.len() - 1) % 2 != 0 {
            env2 == env && r == Err::<ValV, ErrV>(ErrV::ArityError)
        } else {
            exists|tr: Result<Seq<(Seq<char>, ValV)>, ErrV>, envm: EnvV|
                {
                    &&& #[trigger] chosen((tr, envm))
                    &&& table_rel(items, 1, env, fuel, Seq::empty(), tr, envm)
                    &&& match tr {
                        Err(e) => r == Err::<ValV, ErrV>(e) && env2 == envm,
                        Ok(ps) => r == Ok::<ValV, ErrV>(ValV::Table(ps)) && env2 == envm,
                    }
                }
        },
        NativeOp::Get => if items.len() < 2 {
            env2 == env && r == Err::<ValV, ErrV>(ErrV::ArityError)
        } else {
            exists|or: Result<ValV, ErrV>, envm: EnvV|
                {
                    &&& #[trigger] chosen((or, envm))
                    &&& evals_to(items[1], env, fuel, or, envm)
                    &&& match or {
                        Err(e) => r == Err::<ValV, ErrV>(e) && env2 == envm,
                        Ok(ValV::Table(ps)) => if items.len() < 3 {
                            r == Err::<ValV, ErrV>(ErrV::TypeError) && env2 == envm
                        } else {
                            match items[2] {
                                ValV::Symbol(k) => r == match get_chain(
                                    tbl_lookup(ps, k),
                                    items,
                                    3,
                                ) {
                                    Ok(v) => Ok::<ValV, ErrV>(v),
                                    Err(e) => Err::<ValV, ErrV>(e),
                                } && env2 == envm,
                                _ => r == Err::<ValV, ErrV>(ErrV::TypeError) && env2 == envm,
                            }
                        },
                        Ok(_) => r == Err::<ValV, ErrV>(ErrV::TypeError) && env2 == envm,
                    }
                }
        },
        NativeOp::Quote => if items.len() > 2 {
            env2 == env && r == Ok::<ValV, ErrV>(
                ValV::List(items.subrange(1, items.len() as int)),
            )
        } else if items.len() == 2 {
            env2 == env && r == Ok::<ValV, ErrV>(items[1])
        } else {
            env2 == env && r == Ok::<ValV, ErrV>(ValV::Nil)
        },
        NativeOp::Match => if items.len() < 2 {
            env2 == env && r == Err::<ValV, ErrV>(ErrV::ArityError)
        } else {
            exists|cr: Result<ValV, ErrV>, envm: EnvV|
                {
                    &&& #[trigger] chosen((cr, envm))
                    &&& evals_to(items[1], env, fuel, cr, envm)
                    &&& match cr {
                        Err(e) => r == Err::<ValV, ErrV>(e) && env2 == envm,
                        Ok(c) => match_rel(c, items, 2, envm, fuel, r, env2),
                    }
                }
        },
        NativeOp::Random => if items.len() < 2 {
            env2 == env && r == Err::<ValV, ErrV>(ErrV::ArityError)
        } else {
            exists|lr: Result<ValV, ErrV>, envm: EnvV|
                {
                    &&& #[trigger] chosen((lr, envm))
                    &&& evals_to(items[1], env, fuel, lr, envm)
                    &&& match lr {
                        Err(e) => r == Err::<ValV, ErrV>(e) && env2 == envm,
                        Ok(ValV::List(lv)) => if lv.len() == 0 {
                            r == Err::<ValV, ErrV>(ErrV::TypeError) && env2 == envm
                        } else if fuel == 0 {
                            r == Err::<ValV, ErrV>(ErrV::DepthLimit) && env2 == envm
                        } else {
                            exists|ix: int|
                                {
                                    &&& 0 <= ix < lv.len()
                                    &&& #[trigger] chosen(ix)
                                    &&& evals_to(
                                        lv[ix],
                                        envm,
                                        (fuel - 1) as nat,
                                        r,
                                        env2,
                                    )
                                }
                        },
                        Ok(_) => r == Err::<ValV, ErrV>(ErrV::TypeError) && env2 == envm,
                    }
                }
        },
        NativeOp::Load => if items.len() < 2 {
            env2 == env && r == Err::<ValV, ErrV>(ErrV::ArityError)
        } else {
            exists|fr: Result<ValV, ErrV>, envm: EnvV|
                {
                    &&& #[trigger] chosen((fr, envm))
                    &&& evals_to(items[1], env, fuel, fr, envm)
                    &&& match fr {
                        Err(e) => r == Err::<ValV, ErrV>(e) && env2 == envm,
                        Ok(ValV::FString(name)) => match file_lookup(envm.files, name) {
                            None => r == Err::<ValV, ErrV>(ErrV::IoError(name)) && env2 == envm,
                            Some(text) => match parse_stored(text, false) {
                                Err(_) => r == Err::<ValV, ErrV>(ErrV::IoError(name)) && env2
                                    == envm,
                                Ok(parsed) => if fuel == 0 {
                                    r == Err::<ValV, ErrV>(ErrV::DepthLimit) && env2 == envm
                                } else {
                                    exists|dr: Result<ValV, ErrV>, envd: EnvV|
                                        {
                                            &&& #[trigger] chosen((dr, envd))
                                            &&& evals_to(
                                                parsed,
                                                envm,
                                                (fuel - 1) as nat,
                                                dr,
                                                envd,
                                            )
                                            &&& match dr {
                                                Err(e) => r == Err::<ValV, ErrV>(e) && env2
                                                    == envd,
                                                Ok(data) => if items.len() >= 3 && items[2]
                                                    is Symbol {
                                                    env2 == EnvV {
                                                        data: env_insert(
                                                            envd.data,
                                                            items[2]->Symbol_0,
                                                            data,
                                                        ),
                                                        ..envd
                                                    } && r == Ok::<ValV, ErrV>(data)
                                                } else {
                                                    env2 == envd && r == Ok::<ValV, ErrV>(data)
                                                },
                                            }
                                        }
                                },
                            },
                        },
                        Ok(_) => r == Err::<ValV, ErrV>(ErrV::TypeError) && env2 == envm,
                    }
                }
        },
        _ => env2 == env && r == Err::<ValV, ErrV>(ErrV::CallError),
    }
}

/// The view of an evaluation outcome.
pub open spec fn res_view(r: Result<LoomExp, LoomErr>) -> Result<ValV, ErrV> {
    match r {
        Ok(v) => Ok(v@),
        Err(e) => Err(e@),
    }
}

} // verus!

verus! {

proof fn lemma_view_strings_push(s: Seq<String>, x: String)
    ensures
        view_strings(s.push(x)) == view_strings(s).push(x@),
{
    lemma_view_strings(s);
    lemma_view_strings(s.push(x));
    assert(view_strings(s.push(x)) =~= view_strings(s).push(x@));
}

proof fn lemma_upsert_hit(ps: Seq<(Seq<char>, ValV)>, k: Seq<char>, v: ValV, i: int, ix: int)
    requires
        0 <= i <= ix < ps.len(),
        ps[ix].0 == k,
        forall|j: int| i <= j < ix ==> (#[trigger] ps[j]).0 != k,
    ensures
        upsert_from(ps, k, v, i) == ps.update(ix, (k, v)),
    decreases ix - i,
{
    if i < ix {
        lemma_upsert_hit(ps, k, v, i + 1, ix);
    }
}

proof fn lemma_upsert_miss(ps: Seq<(Seq<char>, ValV)>, k: Seq<char>, v: ValV, i: int)
    requires
        0 <= i <= ps.len(),
        forall|j: int| i <= j < ps.len() ==> (#[trigger] ps[j]).0 != k,
    ensures
        upsert_from(ps, k, v, i) == ps.push((k, v)),
    decreases ps.len() - i,
{
    if i < ps.len() {
        lemma_upsert_miss(ps, k, v, i + 1);
    }
}

proof fn lemma_file_upsert_hit(
    fs: Seq<(Seq<char>, Seq<char>)>,
    k: Seq<char>,
    v: Seq<char>,
    i: int,
    ix: int,
)
    requires
        0 <= i <= ix < fs.len(),
        fs[ix].0 == k,
        forall|j: int| i <= j < ix ==> (#[trigger] fs[j]).0 != k,
    ensures
        file_upsert_from(fs, k, v, i) == fs.update(ix, (k, v)),
    decreases ix - i,
{
    if i < ix {
        lemma_file_upsert_hit(fs, k, v, i + 1, ix);
    }
}

proof fn lemma_file_upsert_miss(fs: Seq<(Seq<char>, Seq<char>)>, k: Seq<char>, v: Seq<char>, i: int)
    requires
        0 <= i <= fs.len(),
        forall|j: int| i <= j < fs.len() ==> (#[trigger] fs[j]).0 != k,
    ensures
        file_upsert_from(fs, k, v, i) == fs.push((k, v)),
    decreases fs.len() - i,
{
    if i < fs.len() {
        lemma_file_upsert_miss(fs, k, v, i + 1);
    }
}

impl LoomEnv {
    /// Looks a name up, handing back a structural copy of the bound
    /// value.
    pub fn lookup(&self, name: &String) -> (r: Option<LoomExp>)
        ensures
            match r {
                Some(v) => tbl_lookup(self@.data, name@) == Some(v@),
                None => tbl_lookup(self@.data, name@) is None,
            },
    {
        match tbl_get(&self.data, name) {
            Some(v) => Some(v.duplicate()),
            None => None,
        }
    }

    /// Binds a name to a value, replacing an existing binding of the
    /// same name.
    pub fn insert(&mut self, name: String, v: LoomExp)
        ensures
            final(self)@.data == env_insert(old(self)@.data, name@, v@),
            final(self)@.output == old(self)@.output,
            final(self)@.files == old(self)@.files,
    {
        proof {
            lemma_view_pairs(self.data@);
        }
        let ghost dv = view_pairs(self.data@);
        let mut i: usize = 0;
        let mut hit: Option<usize> = None;
        while i < self.data.len()
            invariant
                i <= self.data@.len(),
                dv == view_pairs(self.data@),
                dv.len() == self.data@.len(),
                forall|j: int|
                    0 <= j < self.data@.len() ==> dv[j] == (self.data@[j].0@, self.data@[j].1@),
                match hit {
                    Some(ix) => ix < i && dv[ix as int].0 == name@ && (forall|j: int|
                        0 <= j < ix ==> (#[trigger] dv[j]).0 != name@),
                    None => forall|j: int| 0 <= j < i ==> (#[trigger] dv[j]).0 != name@,
                },
            decreases self.data@.len() - i,
        {
            if hit.is_none() && self.data[i].0.eq(&name) {
                hit = Some(i);
            }
            i = i + 1;
        }
        match hit {
            Some(ix) => {
                proof {
                    lemma_upsert_hit(dv, name@, v@, 0, ix as int);
                }
                let ghost before = self.data@;
                self.data.remove(ix);
                self.data.insert(ix, (name, v));
                proof {
                    assert(self.data@ =~= before.update(ix as int, self.data@[ix as int]));
                    lemma_view_pairs(self.data@);
                    assert(view_pairs(self.data@) =~= dv.update(ix as int, (name@, v@)));
                }
            },
            None => {
                proof {
                    lemma_upsert_miss(dv, name@, v@, 0);
                }
                let ghost before = self.data@;
                self.data.push((name, v));
                proof {
                    lemma_view_pairs(self.data@);
                    assert(view_pairs(self.data@) =~= dv.push((name@, v@)));
                }
            },
        }
    }

    /// Appends one line to the session's console output.
    fn emit(&mut self, line: String)
        ensures
            final(self)@.output == old(self)@.output.push(line@),
            final(self)@.data == old(self)@.data,
            final(self)@.files == old(self)@.files,
    {
        proof {
            lemma_view_strings_push(self.output@, line);
        }
        self.output.push(line);
    }

    /// Reads a stored file's text.
    pub fn file_get(&self, name: &String) -> (r: Option<String>)
        ensures
            match r {
                Some(text) => file_lookup(self@.files, name@) == Some(text@),
                None => file_lookup(self@.files, name@) is None,
            },
    {
        proof {
            lemma_view_file_pairs(self.files@);
        }
        let ghost fv = view_file_pairs(self.files@);
        let mut i: usize = 0;
        while i < self.files.len()
            invariant
                i <= self.files@.len(),
                fv == view_file_pairs(self.files@),
                fv.len() == self.files@.len(),
                forall|j: int|
                    0 <= j < self.files@.len() ==> fv[j] == (
                        self.files@[j].0@,
                        self.files@[j].1@,
                    ),
                file_lookup(fv, name@) == file_lookup_from(fv, name@, i as int),
            decreases self.files@.len() - i,
        {
            if self.files[i].0.eq(name) {
                return Some(self.files[i].1.clone());
            }
            i = i + 1;
        }
        None
    }

    /// Stores a file's text under a name, replacing what was there.
    pub fn file_put(&mut self, name: String, text: String)
        ensures
            final(self)@.files == file_insert(old(self)@.files, name@, text@),
            final(self)@.data == old(self)@.data,
            final(self)@.output == old(self)@.output,
    {
        proof {
            lemma_view_file_pairs(self.files@);
        }
        let ghost fv = view_file_pairs(self.files@);
        let mut i: usize = 0;
        let mut hit: Option<usize> = None;
        while i < self.files.len()
            invariant
                i <= self.files@.len(),
                fv == view_file_pairs(self.files@),
                fv.len() == self.files@.len(),
                forall|j: int|
                    0 <= j < self.files@.len() ==> fv[j] == (
                        self.files@[j].0@,
                        self.files@[j].1@,
                    ),
                match hit {
                    Some(ix) => ix < i && fv[ix as int].0 == name@ && (forall|j: int|
                        0 <= j < ix ==> (#[trigger] fv[j]).0 != name@),
                    None => forall|j: int| 0 <= j < i ==> (#[trigger] fv[j]).0 != name@,
                },
            decreases self.files@.len() - i,
        {
            if hit.is_none() && self.files[i].0.eq(&name) {
                hit = Some(i);
            }
            i = i + 1;
        }
        match hit {
            Some(ix) => {
                proof {
                    lemma_file_upsert_hit(fv, name@, text@, 0, ix as int);
                }
                let ghost before = self.files@;
                self.files.remove(ix);
                self.files.insert(ix, (name, text));
                proof {
                    assert(self.files@ =~= before.update(ix as int, self.files@[ix as int]));
                    lemma_view_file_pairs(self.files@);
                    assert(view_file_pairs(self.files@) =~= fv.update(ix as int, (name@, text@)));
                }
            },
            None => {
                proof {
                    lemma_file_upsert_miss(fv, name@, text@, 0);
                }
                self.files.push((name, text));
                proof {
                    lemma_view_file_pairs(self.files@);
                    assert(view_file_pairs(self.files@) =~= fv.push((name@, text@)));
                }
            },
        }
    }

    /// Hands the accumulated console output over and clears it.
    pub fn take_output(&mut self) -> (r: Vec<String>)
        ensures
            view_strings(r@) == old(self)@.output,
            final(self)@.output == Seq::<Seq<char>>::empty(),
            final(self)@.data == old(self)@.data,
            final(self)@.files == old(self)@.files,
    {
        let mut out: Vec<String> = Vec::new();
        core::mem::swap(&mut out, &mut self.output);
        out
    }

    /// The stored files, as name and text pairs.
    pub fn stored_files(&self) -> (r: &Vec<(String, String)>)
        ensures
            view_file_pairs(r@) == self@.files,
    {
        &self.files
    }
}

} // verus!

verus! {

/// The catalogue of bindings installed into a fresh environment: the
/// native operations under their names, and the `true` and `nil`
/// constants.
pub open spec fn default_env_data() -> Seq<(Seq<char>, ValV)> {
    seq![
        ("+"@, ValV::Func(NativeOp::Add)),
        ("print"@, ValV::Func(NativeOp::Print)),
        ("run"@, ValV::Func(NativeOp::Run)),
        ("load"@, ValV::Macro(NativeOp::Load)),
        ("save"@, ValV::Func(NativeOp::Save)),
        ("set"@, ValV::Macro(NativeOp::Bind)),
        ("let"@, ValV::Macro(NativeOp::Bind)),
        ("do"@, ValV::Macro(NativeOp::Do)),
        ("say"@, ValV::Func(NativeOp::Say)),
        ("format"@, ValV::Func(NativeOp::Format)),
        ("true"@, ValV::True),
        ("nil"@, ValV::Nil),
        ("exit"@, ValV::Func(NativeOp::Exit)),
        ("="@, ValV::Func(NativeOp::Equal)),
        ("not"@, ValV::Func(NativeOp::Not)),
        ("if"@, ValV::Macro(NativeOp::If)),
        ("table"@, ValV::Macro(NativeOp::MakeTable)),
        ("get"@, ValV::Macro(NativeOp::Get)),
        ("eval"@, ValV::Func(NativeOp::EvalArg)),
        ("list"@, ValV::Func(NativeOp::MakeList)),
        ("quote"@, ValV::Macro(NativeOp::Quote)),
        ("random"@, ValV::Macro(NativeOp::Random)),
        ("match"@, ValV::Macro(NativeOp::Match)),
    ]
}

impl Default for LoomEnv {
    /// A fresh environment holding the whole builtin catalogue.
    fn default() -> (r: LoomEnv)
        ensures
            r@.data == default_env_data(),
            r@.output == Seq::<Seq<char>>::empty(),
            r@.files == Seq::<(Seq<char>, Seq<char>)>::empty(),
    {
        let mut data: Vec<(String, LoomExp)> = Vec::new();
        data.push((String::from_str("+"), LoomExp::Func(NativeOp::Add)));
        data.push((String::from_str("print"), LoomExp::Func(NativeOp::Print)));
        data.push((String::from_str("run"), LoomExp::Func(NativeOp::Run)));
        data.push((String::from_str("load"), LoomExp::Macro(NativeOp::Load)));
        data.push((String::from_str("save"), LoomExp::Func(NativeOp::Save)));
        data.push((String::from_str("set"), LoomExp::Macro(NativeOp::Bind)));
        data.push((String::from_str("let"), LoomExp::Macro(NativeOp::Bind)));
        data.push((String::from_str("do"), LoomExp::Macro(NativeOp::Do)));
        data.push((String::from_str("say"), LoomExp::Func(NativeOp::Say)));
        data.push((String::from_str("format"), LoomExp::Func(NativeOp::Format)));
        data.push((String::from_str("true"), LoomExp::True));
        data.push((String::from_str("nil"), LoomExp::Nil));
        data.push((String::from_str("exit"), LoomExp::Func(NativeOp::Exit)));
        data.push((String::from_str("="), LoomExp::Func(NativeOp::Equal)));
        data.push((String::from_str("not"), LoomExp::Func(NativeOp::Not)));
        data.push((String::from_str("if"), LoomExp::Macro(NativeOp::If)));
        data.push((String::from_str("table"), LoomExp::Macro(NativeOp::MakeTable)));
        data.push((String::from_str("get"), LoomExp::Macro(NativeOp::Get)));
        data.push((String::from_str("eval"), LoomExp::Func(NativeOp::EvalArg)));
        data.push((String::from_str("list"), LoomExp::Func(NativeOp::MakeList)));
        data.push((String::from_str("quote"), LoomExp::Macro(NativeOp::Quote)));
        data.push((String::from_str("random"), LoomExp::Macro(NativeOp::Random)));
        data.push((String::from_str("match"), LoomExp::Macro(NativeOp::Match)));
        proof {
            lemma_view_pairs(data@);
            assert(view_pairs(data@) =~~= default_env_data());
        }
        LoomEnv { data, output: Vec::new(), files: Vec::new() }
    }
}

} // verus!

verus! {

/// Relies on rand's `thread_rng` and `Uniform::from(0..n)`: a sample
/// of that distribution lies in the half-open range `[0, n)`.
#[verifier::external_body]
fn pick_index(n: usize) -> (r: usize)
    requires
        n > 0,
    ensures
        r < n,
{
    let mut rng = rand::thread_rng();
    let die = rand::distributions::Uniform::from(0..n);
    rand::distributions::Distribution::sample(&die, &mut rng)
}

pub open spec fn opt_view(c: Option<LoomExp>) -> Option<ValV> {
    match c {
        Some(v) => Some(v@),
        None => None,
    }
}

pub open spec fn args_res_view(r: Result<Vec<LoomExp>, LoomErr>) -> Result<Seq<ValV>, ErrV> {
    match r {
        Ok(v) => Ok(view_items(v@)),
        Err(e) => Err(e@),
    }
}

fn add_exec(vals: &Vec<LoomExp>) -> (r: Result<LoomExp, LoomErr>)
    ensures
        res_view(r) == match sum_vals(view_items(vals@), 0, 0) {
            Ok(s) => Ok::<ValV, ErrV>(ValV::Number(s)),
            Err(e) => Err::<ValV, ErrV>(e),
        },
{
    proof {
        lemma_view_items(vals@);
    }
    let ghost vv = view_items(vals@);
    let mut acc: i64 = 0;
    let mut i: usize = 0;
    while i < vals.len()
        invariant
            i <= vals@.len(),
            vv == view_items(vals@),
            vv.len() == vals@.len(),
            forall|j: int| 0 <= j < vals@.len() ==> vv[j] == vals@[j]@,
            sum_vals(vv, 0, 0) == sum_vals(vv, i as int, acc as int),
        decreases vals@.len() - i,
    {
        match &vals[i] {
            LoomExp::Number(n) => {
                let n = *n;
                if (n > 0 && acc > i64::MAX - n) || (n < 0 && acc < i64::MIN - n) {
                    return Err(LoomErr::TypeError);
                }
                acc = acc + n;
            },
            _ => {
                return Err(LoomErr::TypeError);
            },
        }
        i = i + 1;
    }
    Ok(LoomExp::Number(acc))
}

fn equal_exec(vals: &Vec<LoomExp>) -> (r: Result<LoomExp, LoomErr>)
    ensures
        res_view(r) == if view_items(vals@).len() == 0 {
            Err::<ValV, ErrV>(ErrV::ArityError)
        } else if all_equal_from(view_items(vals@), 1) {
            Ok::<ValV, ErrV>(ValV::True)
        } else {
            Ok::<ValV, ErrV>(ValV::Nil)
        },
{
    proof {
        lemma_view_items(vals@);
    }
    let ghost vv = view_items(vals@);
    if vals.len() == 0 {
        return Err(LoomErr::ArityError);
    }
    let mut i: usize = 1;
    while i < vals.len()
        invariant
            1 <= i <= vals@.len(),
            vv == view_items(vals@),
            vv.len() == vals@.len(),
            vals@.len() > 0,
            forall|j: int| 0 <= j < vals@.len() ==> vv[j] == vals@[j]@,
            all_equal_from(vv, 1) == all_equal_from(vv, i as int),
        decreases vals@.len() - i,
    {
        if !vals[0].eq(&vals[i]) {
            proof {
                assert(!all_equal_from(vv, i as int));
            }
            return Ok(LoomExp::Nil);
        }
        i = i + 1;
    }
    Ok(LoomExp::True)
}

fn format_exec(vals: &Vec<LoomExp>) -> (r: String)
    ensures
        r@ == fmt_vals(view_items(vals@), 0),
{
    proof {
        lemma_view_items(vals@);
    }
    let ghost vv = view_items(vals@);
    let mut out = String::new();
    let mut i: usize = 0;
    while i < vals.len()
        invariant
            i <= vals@.len(),
            vv == view_items(vals@),
            vv.len() == vals@.len(),
            forall|j: int| 0 <= j < vals@.len() ==> vv[j] == vals@[j]@,
            fmt_vals(vv, 0) == out@ + fmt_vals(vv, i as int),
        decreases vals@.len() - i,
    {
        let piece = vals[i].render();
        out.append(piece.as_str());
        i = i + 1;
        proof {
            assert(fmt_vals(vv, 0) =~= out@ + fmt_vals(vv, i as int));
        }
    }
    proof {
        assert(fmt_vals(vv, 0) =~= out@);
    }
    out
}

fn get_chain_exec(cur: Option<LoomExp>, list: &Vec<LoomExp>, i: usize) -> (r: Result<
    LoomExp,
    LoomErr,
>)
    requires
        i <= list@.len(),
    ensures
        res_view(r) == get_chain(opt_view(cur), view_items(list@), i as int),
    decreases list@.len() - i,
{
    proof {
        lemma_view_items(list@);
    }
    if i >= list.len() {
        match cur {
            Some(v) => Ok(v),
            None => Ok(LoomExp::Nil),
        }
    } else {
        match &list[i] {
            LoomExp::Symbol(k2) => {
                match cur {
                    Some(LoomExp::Table(ps)) => {
                        let nxt = match tbl_get(&ps, k2) {
                            Some(w) => Some(w.duplicate()),
                            None => None,
                        };
                        get_chain_exec(nxt, list, i + 1)
                    },
                    _ => Err(LoomErr::TypeError),
                }
            },
            _ => Err(LoomErr::TypeError),
        }
    }
}

fn pairs_upsert(acc: &mut Vec<(String, LoomExp)>, name: String, v: LoomExp)
    ensures
        view_pairs(final(acc)@) == env_insert(view_pairs(old(acc)@), name@, v@),
{
    proof {
        lemma_view_pairs(acc@);
    }
    let ghost dv = view_pairs(acc@);
    let mut i: usize = 0;
    let mut hit: Option<usize> = None;
    while i < acc.len()
        invariant
            i <= acc@.len(),
            dv == view_pairs(acc@),
            dv.len() == acc@.len(),
            forall|j: int| 0 <= j < acc@.len() ==> dv[j] == (acc@[j].0@, acc@[j].1@),
            match hit {
                Some(ix) => ix < i && dv[ix as int].0 == name@ && (forall|j: int|
                    0 <= j < ix ==> (#[trigger] dv[j]).0 != name@),
                None => forall|j: int| 0 <= j < i ==> (#[trigger] dv[j]).0 != name@,
            },
        decreases acc@.len() - i,
    {
        if hit.is_none() && acc[i].0.eq(&name) {
            hit = Some(i);
        }
        i = i + 1;
    }
    match hit {
        Some(ix) => {
            proof {
                lemma_upsert_hit(dv, name@, v@, 0, ix as int);
            }
            let ghost before = acc@;
            acc.remove(ix);
            acc.insert(ix, (name, v));
            proof {
                assert(acc@ =~= before.update(ix as int, acc@[ix as int]));
                lemma_view_pairs(acc@);
                assert(view_pairs(acc@) =~= dv.update(ix as int, (name@, v@)));
            }
        },
        None => {
            proof {
                lemma_upsert_miss(dv, name@, v@, 0);
            }
            acc.push((name, v));
            proof {
                lemma_view_pairs(acc@);
                assert(view_pairs(acc@) =~= dv.push((name@, v@)));
            }
        },
    }
}

} // verus!

verus! {

impl LoomExp {
    /// Evaluates the expression against the environment. `fuel` bounds
    /// the re-entrant evaluations that `eval`, `random`, `load` and
    /// `run` start on computed values; when it runs out the result is
    /// a `DepthLimit` error.
    pub fn eval(&self, env: &mut LoomEnv, fuel: u64) -> (r: Result<LoomExp, LoomErr>)
        ensures
            evals_to(self@, old(env)@, fuel as nat, res_view(r), final(env)@),
        decreases fuel, self@, 2int, 0int,
    {
        let ghost env0 = env@;
        if fuel == 0 {
            return Err(LoomErr::DepthLimit);
        }
        match self {
            LoomExp::True => Ok(LoomExp::True),
            LoomExp::Nil => Ok(LoomExp::Nil),
            LoomExp::Error => Ok(LoomExp::Error),
            LoomExp::Keyword(_) => Ok(self.duplicate()),
            LoomExp::Number(_) => Ok(self.duplicate()),
            LoomExp::FString(_) => Ok(self.duplicate()),
            LoomExp::Table(_) => Ok(self.duplicate()),
            LoomExp::Symbol(s) => {
                match env.lookup(s) {
                    Some(v) => Ok(v),
                    None => Err(LoomErr::UnboundSymbol(s.clone())),
                }
            },
            LoomExp::Func(_) => Err(LoomErr::CallError),
            LoomExp::Macro(_) => Err(LoomErr::CallError),
            LoomExp::List(xs) => {
                proof {
                    lemma_view_items(xs@);
                    assert(self@ == ValV::List(view_items(xs@)));
                }
                let ghost items = view_items(xs@);
                if xs.len() == 0 {
                    return Ok(LoomExp::Nil);
                }
                proof {
                    assert(decreases_to!(self@ => self@->List_0));
                    assert(self@->List_0 == items);
                    assert(decreases_to!(items => items[0]));
                    assert(items[0] == xs@[0]@);
                    assert(decreases_to!(self@ => xs@[0]@));
                }
                let first = xs[0].eval(env, fuel);
                let ghost envm = env@;
                match first {
                    Err(e) => {
                        let r: Result<LoomExp, LoomErr> = Err(e);
                        proof {
                            assert(chosen((Err::<ValV, ErrV>(e@), envm)));
                            assert(evals_to(items[0], env0, fuel as nat, Err::<ValV, ErrV>(e@), envm));
                            assert(evals_to(self@, env0, fuel as nat, res_view(r), env@));
                        }
                        r
                    },
                    Ok(LoomExp::Func(op)) => {
                        proof {
                            assert(decreases_to!(self@ => items));
                        }
                        let args = eval_args(xs, 1, env, fuel);
                        let ghost enva = env@;
                        match args {
                            Err(e) => {
                                let r: Result<LoomExp, LoomErr> = Err(e);
                                proof {
                                    assert(chosen((Ok::<ValV, ErrV>(ValV::Func(op)), envm)));
                                    assert(evals_to(
                                        items[0],
                                        env0,
                                        fuel as nat,
                                        Ok::<ValV, ErrV>(ValV::Func(op)),
                                        envm,
                                    ));
                                    assert(chosen((Err::<Seq<ValV>, ErrV>(e@), enva)));
                                    assert(eval_args_rel(
                                        items,
                                        1,
                                        envm,
                                        fuel as nat,
                                        Err::<Seq<ValV>, ErrV>(e@),
                                        enva,
                                    ));
                                    assert(evals_to(self@, env0, fuel as nat, res_view(r), env@));
                                }
                                r
                            },
                            Ok(vals) => {
                                let r = apply_op(op, &vals, env, fuel - 1);
                                proof {
                                    assert(chosen((Ok::<ValV, ErrV>(ValV::Func(op)), envm)));
                                    assert(evals_to(
                                        items[0],
                                        env0,
                                        fuel as nat,
                                        Ok::<ValV, ErrV>(ValV::Func(op)),
                                        envm,
                                    ));
                                    assert(chosen((Ok::<Seq<ValV>, ErrV>(view_items(vals@)), enva)));
                                    assert(eval_args_rel(
                                        items,
                                        1,
                                        envm,
                                        fuel as nat,
                                        Ok::<Seq<ValV>, ErrV>(view_items(vals@)),
                                        enva,
                                    ));
                                    assert(apply_rel(
                                        op,
                                        view_items(vals@),
                                        enva,
                                        (fuel - 1) as nat,
                                        res_view(r),
                                        env@,
                                    ));
                                    assert(evals_to(self@, env0, fuel as nat, res_view(r), env@));
                                }
                                r
                            },
                        }
                    },
                    Ok(LoomExp::Macro(op)) => {
                        proof {
                            assert(decreases_to!(self@ => items));
                        }
                        let r = run_macro(op, xs, env, fuel);
                        proof {
                            assert(chosen((Ok::<ValV, ErrV>(ValV::Macro(op)), envm)));
                            assert(evals_to(
                                items[0],
                                env0,
                                fuel as nat,
                                Ok::<ValV, ErrV>(ValV::Macro(op)),
                                envm,
                            ));
                            assert(macro_rel(op, items, envm, fuel as nat, res_view(r), env@));
                            assert(evals_to(self@, env0, fuel as nat, res_view(r), env@));
                        }
                        r
                    },
                    Ok(other) => {
                        let r: Result<LoomExp, LoomErr> = Ok(self.duplicate());
                        proof {
                            assert(chosen((Ok::<ValV, ErrV>(other@), envm)));
                            assert(evals_to(items[0], env0, fuel as nat, Ok::<ValV, ErrV>(other@), envm));
                            assert(!(other@ is Func) && !(other@ is Macro));
                            assert(evals_to(self@, env0, fuel as nat, res_view(r), env@));
                        }
                        r
                    },
                }
            },
        }
    }
}

/// Evaluates the operands `list[i..]` left to right, stopping at the
/// first error.
fn eval_args(list: &Vec<LoomExp>, i: usize, env: &mut LoomEnv, fuel: u64) -> (r: Result<
    Vec<LoomExp>,
    LoomErr,
>)
    requires
        i <= list@.len(),
    ensures
        eval_args_rel(
            view_items(list@),
            i as int,
            old(env)@,
            fuel as nat,
            args_res_view(r),
            final(env)@,
        ),
    decreases fuel, view_items(list@), 0int, list@.len() - i,
{
    let ghost env0 = env@;
    let ghost items = view_items(list@);
    proof {
        lemma_view_items(list@);
    }
    if i >= list.len() {
        let r: Vec<LoomExp> = Vec::new();
        proof {
            lemma_view_items(r@);
            assert(view_items(r@) =~= Seq::<ValV>::empty());
        }
        return Ok(r);
    }
    proof {
        assert(decreases_to!(items => items[i as int]));
        assert(items[i as int] == list@[i as int]@);
    }
    match list[i].eval(env, fuel) {
        Err(e) => {
            let ghost envm = env@;
            let r: Result<Vec<LoomExp>, LoomErr> = Err(e);
            proof {
                assert(chosen((Err::<ValV, ErrV>(e@), envm)));
                assert(evals_to(items[i as int], env0, fuel as nat, Err::<ValV, ErrV>(e@), envm));
                assert(chosen((args_res_view(r), env@)));
                assert(eval_args_rel(items, i as int, env0, fuel as nat, args_res_view(r), env@));
            }
            r
        },
        Ok(head) => {
            let ghost envm = env@;
            match eval_args(list, i + 1, env, fuel) {
                Err(e) => {
                    let r: Result<Vec<LoomExp>, LoomErr> = Err(e);
                    proof {
                        assert(chosen((Ok::<ValV, ErrV>(head@), envm)));
                        assert(evals_to(
                            items[i as int],
                            env0,
                            fuel as nat,
                            Ok::<ValV, ErrV>(head@),
                            envm,
                        ));
                        assert(chosen((Err::<Seq<ValV>, ErrV>(e@), env@)));
                        assert(chosen(e@));
                        assert(eval_args_rel(
                            items,
                            i as int + 1,
                            envm,
                            fuel as nat,
                            Err::<Seq<ValV>, ErrV>(e@),
                            env@,
                        ));
                        assert(chosen((args_res_view(r), env@)));
                        assert(eval_args_rel(
                            items,
                            i as int,
                            env0,
                            fuel as nat,
                            args_res_view(r),
                            env@,
                        ));
                    }
                    r
                },
                Ok(mut rest) => {
                    let ghost rest0 = rest@;
                    let ghost headv = head@;
                    rest.insert(0, head);
                    proof {
                        lemma_view_items(rest0);
                        lemma_view_items(rest@);
                        assert(view_items(rest@) =~= seq![headv] + view_items(rest0));
                        assert(chosen((Ok::<ValV, ErrV>(headv), envm)));
                        assert(evals_to(
                            items[i as int],
                            env0,
                            fuel as nat,
                            Ok::<ValV, ErrV>(headv),
                            envm,
                        ));
                        assert(chosen((Ok::<Seq<ValV>, ErrV>(view_items(rest0)), env@)));
                        assert(chosen(view_items(rest0)));
                        assert(eval_args_rel(
                            items,
                            i as int + 1,
                            envm,
                            fuel as nat,
                            Ok::<Seq<ValV>, ErrV>(view_items(rest0)),
                            env@,
                        ));
                        assert(chosen((Ok::<Seq<ValV>, ErrV>(view_items(rest@)), env@)));
                        assert(eval_args_rel(
                            items,
                            i as int,
                            env0,
                            fuel as nat,
                            Ok::<Seq<ValV>, ErrV>(view_items(rest@)),
                            env@,
                        ));
                    }
                    Ok(rest)
                },
            }
        },
    }
}

} // verus!

verus! {

/// Invokes a function operation on evaluated arguments.
fn apply_op(op: NativeOp, vals: &Vec<LoomExp>, env: &mut LoomEnv, fuel: u64) -> (r: Result<
    LoomExp,
    LoomErr,
>)
    ensures
        apply_rel(op, view_items(vals@), old(env)@, fuel as nat, res_view(r), final(env)@),
    decreases fuel, view_items(vals@), 3int, 0int,
{
    let ghost env0 = env@;
    let ghost vv = view_items(vals@);
    proof {
        lemma_view_items(vals@);
    }
    match op {
        NativeOp::Add => add_exec(vals),
        NativeOp::Equal => equal_exec(vals),
        NativeOp::Not => {
            if vals.len() != 1 {
                Err(LoomErr::ArityError)
            } else {
                match &vals[0] {
                    LoomExp::Nil => Ok(LoomExp::True),
                    _ => Ok(LoomExp::Nil),
                }
            }
        },
        NativeOp::Format => Ok(LoomExp::FString(format_exec(vals))),
        NativeOp::MakeList => {
            let mut out: Vec<LoomExp> = Vec::new();
            let mut i: usize = 0;
            while i < vals.len()
                invariant
                    i <= vals@.len(),
                    vv == view_items(vals@),
                    vv.len() == vals@.len(),
                    forall|j: int| 0 <= j < vals@.len() ==> vv[j] == vals@[j]@,
                    out@.len() == i,
                    forall|j: int| 0 <= j < i ==> out@[j]@ == vals@[j]@,
                decreases vals@.len() - i,
            {
                out.push(vals[i].duplicate());
                i = i + 1;
            }
            proof {
                lemma_view_items(out@);
                assert(view_items(out@) =~= vv);
            }
            Ok(LoomExp::List(out))
        },
        NativeOp::Print => {
            let mut i: usize = 0;
            while i < vals.len()
                invariant
                    i <= vals@.len(),
                    vv == view_items(vals@),
                    vv.len() == vals@.len(),
                    forall|j: int| 0 <= j < vals@.len() ==> vv[j] == vals@[j]@,
                    env@.data == env0.data,
                    env@.files == env0.files,
                    env0.output + print_lines(vv, 0) == env@.output + print_lines(vv, i as int),
                decreases vals@.len() - i,
            {
                let line = match &vals[i] {
                    LoomExp::FString(f) => f.clone(),
                    other => other.render(),
                };
                env.emit(line);
                i = i + 1;
                proof {
                    assert(env0.output + print_lines(vv, 0) =~= env@.output + print_lines(
                        vv,
                        i as int,
                    ));
                }
            }
            proof {
                assert(env@.output =~= env0.output + print_lines(vv, 0));
                assert(env@ =~= EnvV { output: env0.output + print_lines(vv, 0), ..env0 });
            }
            Ok(LoomExp::Nil)
        },
        NativeOp::Say => {
            if vals.len() != 2 {
                Err(LoomErr::ArityError)
            } else {
                match (&vals[0], &vals[1]) {
                    (LoomExp::FString(speaker), LoomExp::FString(text)) => {
                        let mut line = speaker.clone();
                        line.push(':');
                        line.push(' ');
                        line.append(text.as_str());
                        proof {
                            assert(line@ =~= say_line(speaker@, text@));
                        }
                        env.emit(line);
                        proof {
                            assert(env@ =~= EnvV {
                                output: env0.output.push(
                                    say_line(vv[0]->FString_0, vv[1]->FString_0),
                                ),
                                ..env0
                            });
                        }
                        Ok(LoomExp::Nil)
                    },
                    _ => Err(LoomErr::TypeError),
                }
            }
        },
        NativeOp::Save => {
            if vals.len() < 2 {
                Err(LoomErr::ArityError)
            } else {
                match &vals[1] {
                    LoomExp::FString(name) => {
                        let rendered = vals[0].render();
                        env.file_put(name.clone(), rendered);
                        proof {
                            assert(env@ =~= EnvV {
                                files: file_insert(env0.files, vv[1]->FString_0, render_val(vv[0])),
                                ..env0
                            });
                        }
                        Ok(LoomExp::Nil)
                    },
                    _ => Err(LoomErr::TypeError),
                }
            }
        },
        NativeOp::Exit => {
            env.emit(String::from_str("Goodbye for now!"));
            proof {
                assert(env@ =~= EnvV { output: env0.output.push("Goodbye for now!"@), ..env0 });
            }
            Err(LoomErr::Exit)
        },
        NativeOp::EvalArg => {
            if vals.len() == 0 {
                Err(LoomErr::ArityError)
            } else {
                proof {
                    assert(decreases_to!(vv => vv[0]));
                    assert(vv[0] == vals@[0]@);
                }
                let r = vals[0].eval(env, fuel);
                r
            }
        },
        NativeOp::Run => {
            if vals.len() == 0 {
                return Err(LoomErr::TypeError);
            }
            match &vals[0] {
                LoomExp::FString(name) => {
                    match env.file_get(name) {
                        None => Err(LoomErr::IoError(name.clone())),
                        Some(text) => {
                            let ghost textv = text@;
                            match crate::parser::tokenize(text) {
                                Err(_) => Err(LoomErr::IoError(name.clone())),
                                Ok(toks) => {
                                    match crate::parser::tokens_to_exp(toks, true) {
                                        Err(_) => Err(LoomErr::IoError(name.clone())),
                                        Ok(parsed) => {
                                            match parsed {
                                                LoomExp::List(forms) => {
                                                    if fuel == 0 {
                                                        Err(LoomErr::DepthLimit)
                                                    } else {
                                                        run_forms(&forms, 0, env, fuel - 1);
                                                        proof {
                                                            assert(parse_stored(textv, true)
                                                                == Ok::<ValV, ErrV>(
                                                                ValV::List(view_items(forms@)),
                                                            ));
                                                        }
                                                        Ok(LoomExp::Nil)
                                                    }
                                                },
                                                other => {
                                                    proof {
                                                        assert(parse_stored(textv, true)
                                                            == Ok::<ValV, ErrV>(other@));
                                                    }
                                                    Ok(LoomExp::Nil)
                                                },
                                            }
                                        },
                                    }
                                },
                            }
                        },
                    }
                },
                _ => Err(LoomErr::TypeError),
            }
        },
        _ => Err(LoomErr::CallError),
    }
}

/// Evaluates a file's top-level forms in order, logging a failure to
/// the output and going on with the next form.
fn run_forms(forms: &Vec<LoomExp>, i: usize, env: &mut LoomEnv, fuel: u64)
    requires
        i <= forms@.len(),
    ensures
        run_forms_rel(view_items(forms@), i as int, old(env)@, fuel as nat, final(env)@),
    decreases fuel, view_items(forms@), 0int, forms@.len() - i,
{
    let ghost env0 = env@;
    let ghost fv = view_items(forms@);
    proof {
        lemma_view_items(forms@);
    }
    if i >= forms.len() {
        return;
    }
    proof {
        assert(decreases_to!(fv => fv[i as int]));
        assert(fv[i as int] == forms@[i as int]@);
    }
    let fres = forms[i].eval(env, fuel);
    let ghost frv = res_view(fres);
    match fres {
        Ok(_) => {
            let ghost envm = env@;
            run_forms(forms, i + 1, env, fuel);
            proof {
                assert(chosen((frv, envm)));
                assert(run_forms_rel(fv, i as int, env0, fuel as nat, env@));
            }
        },
        Err(e) => {
            let ghost envm = env@;
            let mut line = String::from_str("Error: ");
            let desc = e.describe();
            line.append(desc.as_str());
            proof {
                reveal_strlit("Error: ");
                assert(line@ =~= run_err_line(e@));
            }
            env.emit(line);
            let ghost envm2 = env@;
            proof {
                assert(envm2 =~= EnvV { output: envm.output.push(run_err_line(e@)), ..envm });
            }
            run_forms(forms, i + 1, env, fuel);
            proof {
                assert(chosen((frv, envm)));
                assert(run_forms_rel(fv, i as int, env0, fuel as nat, env@));
            }
        },
    }
}

} // verus!

verus! {

/// Evaluates the operands of `do` in order; the result is the last
/// value, or `True` for an empty body.
fn do_exec(list: &Vec<LoomExp>, i: usize, env: &mut LoomEnv, fuel: u64) -> (r: Result<
    LoomExp,
    LoomErr,
>)
    requires
        i <= list@.len(),
    ensures
        do_rel(view_items(list@), i as int, old(env)@, fuel as nat, res_view(r), final(env)@),
    decreases fuel, view_items(list@), 0int, list@.len() - i,
{
    let ghost env0 = env@;
    let ghost lv = view_items(list@);
    proof {
        lemma_view_items(list@);
    }
    if i >= list.len() {
        return Ok(LoomExp::True);
    }
    proof {
        assert(decreases_to!(lv => lv[i as int]));
        assert(lv[i as int] == list@[i as int]@);
    }
    match list[i].eval(env, fuel) {
        Err(e) => {
            let r: Result<LoomExp, LoomErr> = Err(e);
            proof {
                assert(chosen((res_view(r), env@)));
                assert(evals_to(lv[i as int], env0, fuel as nat, res_view(r), env@));
                assert(do_rel(lv, i as int, env0, fuel as nat, res_view(r), env@));
            }
            r
        },
        Ok(v) => {
            let ghost envm = env@;
            if i + 1 >= list.len() {
                let r: Result<LoomExp, LoomErr> = Ok(v);
                proof {
                    assert(chosen((res_view(r), envm)));
                    assert(evals_to(lv[i as int], env0, fuel as nat, res_view(r), envm));
                    assert(do_rel(lv, i as int, env0, fuel as nat, res_view(r), env@));
                }
                r
            } else {
                let r = do_exec(list, i + 1, env, fuel);
                proof {
                    assert(chosen((Ok::<ValV, ErrV>(v@), envm)));
                    assert(evals_to(lv[i as int], env0, fuel as nat, Ok::<ValV, ErrV>(v@), envm));
                    assert(do_rel(lv, i as int + 1, envm, fuel as nat, res_view(r), env@));
                    assert(do_rel(lv, i as int, env0, fuel as nat, res_view(r), env@));
                }
                r
            }
        },
    }
}

/// Scans the pattern lists of `match` for the first whose head equals
/// the subject, and evaluates its body.
fn match_exec(cond: &LoomExp, list: &Vec<LoomExp>, i: usize, env: &mut LoomEnv, fuel: u64) -> (r:
    Result<LoomExp, LoomErr>)
    requires
        i <= list@.len(),
    ensures
        match_rel(
            cond@,
            view_items(list@),
            i as int,
            old(env)@,
            fuel as nat,
            res_view(r),
            final(env)@,
        ),
    decreases fuel, view_items(list@), 0int, list@.len() - i,
{
    let ghost env0 = env@;
    let ghost lv = view_items(list@);
    proof {
        lemma_view_items(list@);
    }
    if i >= list.len() {
        return Ok(LoomExp::Nil);
    }
    match &list[i] {
        LoomExp::List(pl) => {
            proof {
                lemma_view_items(pl@);
                assert(lv[i as int] == ValV::List(view_items(pl@)));
            }
            if pl.len() == 0 {
                Err(LoomErr::ArityError)
            } else if pl[0].eq(cond) {
                if pl.len() < 2 {
                    Err(LoomErr::ArityError)
                } else {
                    proof {
                        assert(decreases_to!(lv => lv[i as int]));
                        assert(decreases_to!(lv[i as int] => lv[i as int]->List_0));
                        assert(lv[i as int]->List_0 == view_items(pl@));
                        assert(decreases_to!(view_items(pl@) => view_items(pl@)[1]));
                        assert(view_items(pl@)[1] == pl@[1]@);
                        assert(decreases_to!(lv => pl@[1]@));
                    }
                    let r = pl[1].eval(env, fuel);
                    r
                }
            } else {
                let r = match_exec(cond, list, i + 1, env, fuel);
                r
            }
        },
        _ => Err(LoomErr::TypeError),
    }
}

pub open spec fn tbl_res_view(r: Result<Vec<(String, LoomExp)>, LoomErr>) -> Result<
    Seq<(Seq<char>, ValV)>,
    ErrV,
> {
    match r {
        Ok(v) => Ok(view_pairs(v@)),
        Err(e) => Err(e@),
    }
}

/// Walks the key-value operands of `table`, evaluating each value.
fn table_exec(
    list: &Vec<LoomExp>,
    i: usize,
    env: &mut LoomEnv,
    fuel: u64,
    acc: Vec<(String, LoomExp)>,
) -> (r: Result<Vec<(String, LoomExp)>, LoomErr>)
    requires
        i <= list@.len(),
    ensures
        table_rel(
            view_items(list@),
            i as int,
            old(env)@,
            fuel as nat,
            view_pairs(acc@),
            tbl_res_view(r),
            final(env)@,
        ),
    decreases fuel, view_items(list@), 0int, list@.len() - i,
{
    let ghost env0 = env@;
    let ghost lv = view_items(list@);
    let ghost acc0 = view_pairs(acc@);
    proof {
        lemma_view_items(list@);
    }
    if i >= list.len() {
        return Ok(acc);
    }
    match &list[i] {
        LoomExp::Keyword(k) => {
            if i + 1 >= list.len() {
                Err(LoomErr::ArityError)
            } else {
                proof {
                    assert(decreases_to!(lv => lv[i as int + 1]));
                    assert(lv[i as int + 1] == list@[i as int + 1]@);
                }
                match list[i + 1].eval(env, fuel) {
                    Err(e) => {
                        let r: Result<Vec<(String, LoomExp)>, LoomErr> = Err(e);
                        proof {
                            assert(chosen((Err::<ValV, ErrV>(e@), env@)));
                            assert(evals_to(
                                lv[i as int + 1],
                                env0,
                                fuel as nat,
                                Err::<ValV, ErrV>(e@),
                                env@,
                            ));
                            assert(table_rel(
                                lv,
                                i as int,
                                env0,
                                fuel as nat,
                                acc0,
                                tbl_res_view(r),
                                env@,
                            ));
                        }
                        r
                    },
                    Ok(v) => {
                        let ghost envm = env@;
                        let ghost vv = v@;
                        let mut acc2 = acc;
                        pairs_upsert(&mut acc2, k.clone(), v);
                        proof {
                            assert(view_pairs(acc2@) == env_insert(acc0, k@, vv));
                        }
                        let r = table_exec(list, i + 2, env, fuel, acc2);
                        proof {
                            assert(chosen((Ok::<ValV, ErrV>(vv), envm)));
                            assert(evals_to(
                                lv[i as int + 1],
                                env0,
                                fuel as nat,
                                Ok::<ValV, ErrV>(vv),
                                envm,
                            ));
                            assert(table_rel(
                                lv,
                                i as int + 2,
                                envm,
                                fuel as nat,
                                env_insert(acc0, k@, vv),
                                tbl_res_view(r),
                                env@,
                            ));
                            assert(table_rel(
                                lv,
                                i as int,
                                env0,
                                fuel as nat,
                                acc0,
                                tbl_res_view(r),
                                env@,
                            ));
                        }
                        r
                    },
                }
            }
        },
        _ => Err(LoomErr::TypeError),
    }
}

/// Invokes a macro operation on the whole raw call form `list`, whose
/// operands are `list[1..]`.
fn run_macro(op: NativeOp, list: &Vec<LoomExp>, env: &mut LoomEnv, fuel: u64) -> (r: Result<
    LoomExp,
    LoomErr,
>)
    requires
        1 <= list@.len(),
    ensures
        macro_rel(op, view_items(list@), old(env)@, fuel as nat, res_view(r), final(env)@),
    decreases fuel, view_items(list@), 1int, 0int,
{
    let ghost env0 = env@;
    let ghost lv = view_items(list@);
    proof {
        lemma_view_items(list@);
    }
    match op {
        NativeOp::If => {
            if list.len() < 2 {
                return Err(LoomErr::ArityError);
            }
            proof {
                assert(decreases_to!(lv => lv[1]));
                assert(lv[1] == list@[1]@);
            }
            match list[1].eval(env, fuel) {
                Err(e) => {
                    let r: Result<LoomExp, LoomErr> = Err(e);
                    proof {
                        assert(chosen((res_view(r), env@)));
                        assert(evals_to(lv[1], env0, fuel as nat, res_view(r), env@));
                    }
                    r
                },
                Ok(cond) => {
                    let ghost envm = env@;
                    let ghost condv = cond@;
                    match cond {
                        LoomExp::Nil => {
                            if list.len() >= 4 {
                                proof {
                                    assert(decreases_to!(lv => lv[3]));
                                    assert(lv[3] == list@[3]@);
                                }
                                let r = list[3].eval(env, fuel);
                                proof {
                                    assert(chosen((Ok::<ValV, ErrV>(condv), envm)));
                                    assert(evals_to(
                                        lv[1],
                                        env0,
                                        fuel as nat,
                                        Ok::<ValV, ErrV>(condv),
                                        envm,
                                    ));
                                }
                                r
                            } else {
                                let r: Result<LoomExp, LoomErr> = Ok(LoomExp::Nil);
                                proof {
                                    assert(chosen((Ok::<ValV, ErrV>(condv), envm)));
                                    assert(evals_to(
                                        lv[1],
                                        env0,
                                        fuel as nat,
                                        Ok::<ValV, ErrV>(condv),
                                        envm,
                                    ));
                                }
                                r
                            }
                        },
                        _ => {
                            if list.len() >= 3 {
                                proof {
                                    assert(decreases_to!(lv => lv[2]));
                                    assert(lv[2] == list@[2]@);
                                }
                                let r = list[2].eval(env, fuel);
                                proof {
                                    assert(chosen((Ok::<ValV, ErrV>(condv), envm)));
                                    assert(evals_to(
                                        lv[1],
                                        env0,
                                        fuel as nat,
                                        Ok::<ValV, ErrV>(condv),
                                        envm,
                                    ));
                                }
                                r
                            } else {
                                let r: Result<LoomExp, LoomErr> = Err(LoomErr::ArityError);
                                proof {
                                    assert(chosen((Ok::<ValV, ErrV>(condv), envm)));
                                    assert(evals_to(
                                        lv[1],
                                        env0,
                                        fuel as nat,
                                        Ok::<ValV, ErrV>(condv),
                                        envm,
                                    ));
                                }
                                r
                            }
                        },
                    }
                },
            }
        },
        NativeOp::Bind => {
            if list.len() < 2 {
                return Err(LoomErr::ArityError);
            }
            match &list[1] {
                LoomExp::Symbol(name) => {
                    if list.len() < 3 {
                        return Err(LoomErr::ArityError);
                    }
                    proof {
                        assert(decreases_to!(lv => lv[2]));
                        assert(lv[2] == list@[2]@);
                    }
                    match list[2].eval(env, fuel) {
                        Err(e) => {
                            let r: Result<LoomExp, LoomErr> = Err(e);
                            proof {
                                assert(chosen((res_view(r), env@)));
                                assert(evals_to(lv[2], env0, fuel as nat, res_view(r), env@));
                            }
                            r
                        },
                        Ok(v) => {
                            let ghost envm = env@;
                            let ghost vv = v@;
                            env.insert(name.clone(), v);
                            proof {
                                assert(chosen((Ok::<ValV, ErrV>(vv), envm)));
                                assert(evals_to(
                                    lv[2],
                                    env0,
                                    fuel as nat,
                                    Ok::<ValV, ErrV>(vv),
                                    envm,
                                ));
                                assert(env@ =~= EnvV {
                                    data: env_insert(envm.data, lv[1]->Symbol_0, vv),
                                    ..envm
                                });
                            }
                            Ok(LoomExp::Nil)
                        },
                    }
                },
                _ => Err(LoomErr::TypeError),
            }
        },
        NativeOp::Do => {
            proof {
                assert(decreases_to!(fuel as int, lv, 1int, 0int => fuel as int, lv, 0int, list@.len() - 1));
            }
            let r = do_exec(list, 1, env, fuel);
            r
        },
        NativeOp::MakeTable => {
            if (list.len() - 1) % 2 != 0 {
                Err(LoomErr::ArityError)
            } else {
                let acc: Vec<(String, LoomExp)> = Vec::new();
                proof {
                    lemma_view_pairs(acc@);
                    assert(view_pairs(acc@) =~= Seq::<(Seq<char>, ValV)>::empty());
                }
                match table_exec(list, 1, env, fuel, acc) {
                    Err(e) => {
                        let r: Result<LoomExp, LoomErr> = Err(e);
                        proof {
                            assert(chosen((Err::<Seq<(Seq<char>, ValV)>, ErrV>(e@), env@)));
                            assert(table_rel(
                                lv,
                                1,
                                env0,
                                fuel as nat,
                                Seq::empty(),
                                Err::<Seq<(Seq<char>, ValV)>, ErrV>(e@),
                                env@,
                            ));
                        }
                        r
                    },
                    Ok(ps) => {
                        let r: Result<LoomExp, LoomErr> = Ok(LoomExp::Table(ps));
                        proof {
                            assert(chosen((Ok::<Seq<(Seq<char>, ValV)>, ErrV>(r->Ok_0@->Table_0), env@)));
                            assert(table_rel(
                                lv,
                                1,
                                env0,
                                fuel as nat,
                                Seq::empty(),
                                Ok::<Seq<(Seq<char>, ValV)>, ErrV>(r->Ok_0@->Table_0),
                                env@,
                            ));
                        }
                        r
                    },
                }
            }
        },
        NativeOp::Get => {
            if list.len() < 2 {
                return Err(LoomErr::ArityError);
            }
            proof {
                assert(decreases_to!(lv => lv[1]));
                assert(lv[1] == list@[1]@);
            }
            match list[1].eval(env, fuel) {
                Err(e) => {
                    let r: Result<LoomExp, LoomErr> = Err(e);
                    proof {
                        assert(chosen((res_view(r), env@)));
                        assert(evals_to(lv[1], env0, fuel as nat, res_view(r), env@));
                    }
                    r
                },
                Ok(obj) => {
                    let ghost envm = env@;
                    let ghost objv = obj@;
                    match obj {
                        LoomExp::Table(ps) => {
                            if list.len() < 3 {
                                let r: Result<LoomExp, LoomErr> = Err(LoomErr::TypeError);
                                proof {
                                    assert(chosen((Ok::<ValV, ErrV>(objv), envm)));
                                    assert(evals_to(
                                        lv[1],
                                        env0,
                                        fuel as nat,
                                        Ok::<ValV, ErrV>(objv),
                                        envm,
                                    ));
                                }
                                r
                            } else {
                                match &list[2] {
                                    LoomExp::Symbol(k) => {
                                        let start = match tbl_get(&ps, k) {
                                            Some(w) => Some(w.duplicate()),
                                            None => None,
                                        };
                                        let r = get_chain_exec(start, list, 3);
                                        proof {
                                            assert(chosen((Ok::<ValV, ErrV>(objv), envm)));
                                            assert(evals_to(
                                                lv[1],
                                                env0,
                                                fuel as nat,
                                                Ok::<ValV, ErrV>(objv),
                                                envm,
                                            ));
                                            assert(lv[2] == list@[2]@);
                                        }
                                        r
                                    },
                                    _ => {
                                        let r: Result<LoomExp, LoomErr> = Err(LoomErr::TypeError);
                                        proof {
                                            assert(chosen((Ok::<ValV, ErrV>(objv), envm)));
                                            assert(evals_to(
                                                lv[1],
                                                env0,
                                                fuel as nat,
                                                Ok::<ValV, ErrV>(objv),
                                                envm,
                                            ));
                                            assert(lv[2] == list@[2]@);
                                        }
                                        r
                                    },
                                }
                            }
                        },
                        _ => {
                            let r: Result<LoomExp, LoomErr> = Err(LoomErr::TypeError);
                            proof {
                                assert(chosen((Ok::<ValV, ErrV>(objv), envm)));
                                assert(evals_to(
                                    lv[1],
                                    env0,
                                    fuel as nat,
                                    Ok::<ValV, ErrV>(objv),
                                    envm,
                                ));
                            }
                            r
                        },
                    }
                },
            }
        },
        NativeOp::Quote => {
            if list.len() > 2 {
                let mut out: Vec<LoomExp> = Vec::new();
                let mut i: usize = 1;
                while i < list.len()
                    invariant
                        1 <= i <= list@.len(),
                        lv == view_items(list@),
                        lv.len() == list@.len(),
                        forall|j: int| 0 <= j < list@.len() ==> lv[j] == list@[j]@,
                        out@.len() == i - 1,
                        forall|j: int| 0 <= j < i - 1 ==> out@[j]@ == list@[j + 1]@,
                    decreases list@.len() - i,
                {
                    out.push(list[i].duplicate());
                    i = i + 1;
                }
                proof {
                    lemma_view_items(out@);
                    assert(view_items(out@) =~= lv.subrange(1, lv.len() as int));
                }
                Ok(LoomExp::List(out))
            } else if list.len() == 2 {
                Ok(list[1].duplicate())
            } else {
                Ok(LoomExp::Nil)
            }
        },
        NativeOp::Match => {
            if list.len() < 2 {
                return Err(LoomErr::ArityError);
            }
            proof {
                assert(decreases_to!(lv => lv[1]));
                assert(lv[1] == list@[1]@);
            }
            match list[1].eval(env, fuel) {
                Err(e) => {
                    let r: Result<LoomExp, LoomErr> = Err(e);
                    proof {
                        assert(chosen((res_view(r), env@)));
                        assert(evals_to(lv[1], env0, fuel as nat, res_view(r), env@));
                    }
                    r
                },
                Ok(cond) => {
                    let ghost envm = env@;
                    let ghost condv = cond@;
                    let r = match_exec(&cond, list, 2, env, fuel);
                    proof {
                        assert(chosen((Ok::<ValV, ErrV>(condv), envm)));
                        assert(evals_to(lv[1], env0, fuel as nat, Ok::<ValV, ErrV>(condv), envm));
                        assert(match_rel(condv, lv, 2, envm, fuel as nat, res_view(r), env@));
                    }
                    r
                },
            }
        },
        NativeOp::Random => {
            if list.len() < 2 {
                return Err(LoomErr::ArityError);
            }
            proof {
                assert(decreases_to!(lv => lv[1]));
                assert(lv[1] == list@[1]@);
            }
            match list[1].eval(env, fuel) {
                Err(e) => {
                    let r: Result<LoomExp, LoomErr> = Err(e);
                    proof {
                        assert(chosen((res_view(r), env@)));
                        assert(evals_to(lv[1], env0, fuel as nat, res_view(r), env@));
                    }
                    r
                },
                Ok(lst) => {
                    let ghost envm = env@;
                    let ghost lstv = lst@;
                    match lst {
                        LoomExp::List(choices) => {
                            proof {
                                lemma_view_items(choices@);
                                assert(lstv == ValV::List(view_items(choices@)));
                            }
                            if choices.len() == 0 {
                                let r: Result<LoomExp, LoomErr> = Err(LoomErr::TypeError);
                                proof {
                                    assert(chosen((Ok::<ValV, ErrV>(lstv), envm)));
                                    assert(evals_to(
                                        lv[1],
                                        env0,
                                        fuel as nat,
                                        Ok::<ValV, ErrV>(lstv),
                                        envm,
                                    ));
                                }
                                r
                            } else if fuel == 0 {
                                let r: Result<LoomExp, LoomErr> = Err(LoomErr::DepthLimit);
                                proof {
                                    assert(chosen((Ok::<ValV, ErrV>(lstv), envm)));
                                    assert(evals_to(
                                        lv[1],
                                        env0,
                                        fuel as nat,
                                        Ok::<ValV, ErrV>(lstv),
                                        envm,
                                    ));
                                }
                                r
                            } else {
                                let ix = pick_index(choices.len());
                                let r = choices[ix].eval(env, fuel - 1);
                                proof {
                                    assert(chosen(ix as int));
                                    assert(chosen((Ok::<ValV, ErrV>(lstv), envm)));
                                    assert(evals_to(
                                        lv[1],
                                        env0,
                                        fuel as nat,
                                        Ok::<ValV, ErrV>(lstv),
                                        envm,
                                    ));
                                    assert(view_items(choices@)[ix as int] == choices@[ix as int]@);
                                    assert(chosen((res_view(r), env@)));
                                    assert(evals_to(
                                        view_items(choices@)[ix as int],
                                        envm,
                                        (fuel - 1) as nat,
                                        res_view(r),
                                        env@,
                                    ));
                                }
                                r
                            }
                        },
                        _ => {
                            let r: Result<LoomExp, LoomErr> = Err(LoomErr::TypeError);
                            proof {
                                assert(chosen((Ok::<ValV, ErrV>(lstv), envm)));
                                assert(evals_to(
                                    lv[1],
                                    env0,
                                    fuel as nat,
                                    Ok::<ValV, ErrV>(lstv),
                                    envm,
                                ));
                            }
                            r
                        },
                    }
                },
            }
        },
        NativeOp::Load => {
            if list.len() < 2 {
                return Err(LoomErr::ArityError);
            }
            proof {
                assert(decreases_to!(lv => lv[1]));
                assert(lv[1] == list@[1]@);
            }
            match list[1].eval(env, fuel) {
                Err(e) => {
                    let r: Result<LoomExp, LoomErr> = Err(e);
                    proof {
                        assert(chosen((res_view(r), env@)));
                        assert(evals_to(lv[1], env0, fuel as nat, res_view(r), env@));
                    }
                    r
                },
                Ok(fv) => {
                    let ghost envm = env@;
                    let ghost fvv = fv@;
                    match fv {
                        LoomExp::FString(name) => {
                            match env.file_get(&name) {
                                None => {
                                    let r: Result<LoomExp, LoomErr> = Err(
                                        LoomErr::IoError(name.clone()),
                                    );
                                    proof {
                                        assert(chosen((Ok::<ValV, ErrV>(fvv), envm)));
                                        assert(evals_to(
                                            lv[1],
                                            env0,
                                            fuel as nat,
                                            Ok::<ValV, ErrV>(fvv),
                                            envm,
                                        ));
                                    }
                                    r
                                },
                                Some(text) => {
                                    let ghost textv = text@;
                                    let parse_out: Result<LoomExp, LoomErr> = match
                                        crate::parser::tokenize(text) {
                                        Err(_) => Err(LoomErr::IoError(name.clone())),
                                        Ok(toks) => match crate::parser::tokens_to_exp(
                                            toks,
                                            false,
                                        ) {
                                            Err(_) => Err(LoomErr::IoError(name.clone())),
                                            Ok(parsed) => Ok(parsed),
                                        },
                                    };
                                    match parse_out {
                                        Err(e) => {
                                            let r: Result<LoomExp, LoomErr> = Err(e);
                                            proof {
                                                assert(chosen((Ok::<ValV, ErrV>(fvv), envm)));
                                                assert(evals_to(
                                                    lv[1],
                                                    env0,
                                                    fuel as nat,
                                                    Ok::<ValV, ErrV>(fvv),
                                                    envm,
                                                ));
                                                assert(parse_stored(textv, false) is Err);
                                            }
                                            r
                                        },
                                        Ok(parsed) => {
                                            proof {
                                                assert(parse_stored(textv, false) == Ok::<
                                                    ValV,
                                                    ErrV,
                                                >(parsed@));
                                            }
                                            if fuel == 0 {
                                                let r: Result<LoomExp, LoomErr> = Err(
                                                    LoomErr::DepthLimit,
                                                );
                                                proof {
                                                    assert(chosen((Ok::<ValV, ErrV>(fvv), envm)));
                                                    assert(evals_to(
                                                        lv[1],
                                                        env0,
                                                        fuel as nat,
                                                        Ok::<ValV, ErrV>(fvv),
                                                        envm,
                                                    ));
                                                }
                                                r
                                            } else {
                                                let ghost parsedv = parsed@;
                                                let dres = parsed.eval(env, fuel - 1);
                                                let ghost envd = env@;
                                                match dres {
                                                    Err(e) => {
                                                        let r: Result<LoomExp, LoomErr> = Err(e);
                                                        proof {
                                                            assert(chosen((Ok::<ValV, ErrV>(fvv), envm)));
                                                            assert(evals_to(
                                                                lv[1],
                                                                env0,
                                                                fuel as nat,
                                                                Ok::<ValV, ErrV>(fvv),
                                                                envm,
                                                            ));
                                                            assert(chosen((res_view(r), envd)));
                                                            assert(evals_to(
                                                                parsedv,
                                                                envm,
                                                                (fuel - 1) as nat,
                                                                res_view(r),
                                                                envd,
                                                            ));
                                                        }
                                                        r
                                                    },
                                                    Ok(data) => {
                                                        let ghost datav = data@;
                                                        let bind_it = if list.len() >= 3 {
                                                            match &list[2] {
                                                                LoomExp::Symbol(_) => true,
                                                                _ => false,
                                                            }
                                                        } else {
                                                            false
                                                        };
                                                        if bind_it {
                                                            match &list[2] {
                                                                LoomExp::Symbol(k) => {
                                                                    env.insert(
                                                                        k.clone(),
                                                                        data.duplicate(),
                                                                    );
                                                                },
                                                                _ => {
                                                                },
                                                            }
                                                            proof {
                                                                assert(chosen((Ok::<ValV, ErrV>(fvv), envm)));
                                                                assert(evals_to(
                                                                    lv[1],
                                                                    env0,
                                                                    fuel as nat,
                                                                    Ok::<ValV, ErrV>(fvv),
                                                                    envm,
                                                                ));
                                                                assert(chosen((Ok::<ValV, ErrV>(datav), envd)));
                                                                assert(evals_to(
                                                                    parsedv,
                                                                    envm,
                                                                    (fuel - 1) as nat,
                                                                    Ok::<ValV, ErrV>(datav),
                                                                    envd,
                                                                ));
                                                                assert(lv[2] == list@[2]@);
                                                                assert(env@ =~= EnvV {
                                                                    data: env_insert(
                                                                        envd.data,
                                                                        lv[2]->Symbol_0,
                                                                        datav,
                                                                    ),
                                                                    ..envd
                                                                });
                                                            }
                                                            Ok(data)
                                                        } else {
                                                            proof {
                                                                assert(chosen((Ok::<ValV, ErrV>(fvv), envm)));
                                                                assert(evals_to(
                                                                    lv[1],
                                                                    env0,
                                                                    fuel as nat,
                                                                    Ok::<ValV, ErrV>(fvv),
                                                                    envm,
                                                                ));
                                                                assert(chosen((Ok::<ValV, ErrV>(datav), envd)));
                                                                assert(evals_to(
                                                                    parsedv,
                                                                    envm,
                                                                    (fuel - 1) as nat,
                                                                    Ok::<ValV, ErrV>(datav),
                                                                    envd,
                                                                ));
                                                                if list@.len() >= 3 {
                                                                    assert(lv[2] == list@[2]@);
                                                                }
                                                            }
                                                            Ok(data)
                                                        }
                                                    },
                                                }
                                            }
                                        },
                                    }
                                },
                            }
                        },
                        _ => {
                            let r: Result<LoomExp, LoomErr> = Err(LoomErr::TypeError);
                            proof {
                                assert(chosen((Ok::<ValV, ErrV>(fvv), envm)));
                                assert(evals_to(
                                    lv[1],
                                    env0,
                                    fuel as nat,
                                    Ok::<ValV, ErrV>(fvv),
                                    envm,
                                ));
                            }
                            r
                        },
                    }
                },
            }
        },
        _ => Err(LoomErr::CallError),
    }
}

} // verus!

verus! {

/// Law: evaluating an application whose operator is an unbound symbol
/// yields the unbound-symbol error, not a crash, and does not change
/// the environment.
pub proof fn lemma_unbound_operator(
    items: Seq<ValV>,
    env: EnvV,
    fuel: nat,
    r: Result<ValV, ErrV>,
    env2: EnvV,
)
    requires
        fuel > 0,
        items.len() > 0,
        items[0] is Symbol,
        tbl_lookup(env.data, items[0]->Symbol_0) is None,
        evals_to(ValV::List(items), env, fuel, r, env2),
    ensures
        r == Err::<ValV, ErrV>(ErrV::UnboundSymbol(items[0]->Symbol_0)),
        env2 == env,
{
    let (fr, envm) = choose|fr: Result<ValV, ErrV>, envm: EnvV|
        {
            &&& #[trigger] chosen((fr, envm))
            &&& evals_to(items[0], env, fuel, fr, envm)
            &&& match fr {
                Err(fe) => r == Err::<ValV, ErrV>(fe) && env2 == envm,
                Ok(ValV::Func(op)) => exists|ar: Result<Seq<ValV>, ErrV>, enva: EnvV|
                    {
                        &&& #[trigger] chosen((ar, enva))
                        &&& eval_args_rel(items, 1, envm, fuel, ar, enva)
                        &&& match ar {
                            Err(ae) => r == Err::<ValV, ErrV>(ae) && env2 == enva,
                            Ok(vals) => apply_rel(op, vals, enva, (fuel - 1) as nat, r, env2),
                        }
                    },
                Ok(ValV::Macro(op)) => macro_rel(op, items, envm, fuel, r, env2),
                Ok(_) => r == Ok::<ValV, ErrV>(ValV::List(items)) && env2 == envm,
            }
        };
    assert(evals_to(items[0], env, fuel, fr, envm));
    assert(fr == Err::<ValV, ErrV>(ErrV::UnboundSymbol(items[0]->Symbol_0)) && envm == env);
}

} // verus!
