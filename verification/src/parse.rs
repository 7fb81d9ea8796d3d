//! The location-tracking reader: a tokenizer that attaches line and
//! column to every token, and a recursive-descent reader that builds
//! expression trees with keyword-argument desugaring.

use vstd::prelude::*;
use crate::text::{to_chars, from_chars};

verus! {

/// The location of a token or expression in the source text.
#[derive(Debug, Clone, Copy, PartialEq, Eq, Structural)]
pub struct Location {
    pub line: usize,
    pub column: usize,
}

impl Location {
    pub fn new(line: usize, column: usize) -> (r: Self)
        ensures
            r.line == line,
            r.column == column,
    {
        Self { line, column }
    }
}

/// A token of the reader, carrying its source location.
#[derive(Debug)]
pub enum Token {
    LParen { location: Location },
    RParen { location: Location },
    LBracket { location: Location },
    RBracket { location: Location },
    Symbol { content: String, location: Location },
    StrLit { content: String, location: Location },
    Comment { content: String, location: Location },
}

/// The mathematical shape of a `Token`; locations are pairs of line
/// and column.
#[verifier::ext_equal]
pub enum TokenV {
    LParen { line: int, column: int },
    RParen { line: int, column: int },
    LBracket { line: int, column: int },
    RBracket { line: int, column: int },
    Symbol { content: Seq<char>, line: int, column: int },
    StrLit { content: Seq<char>, line: int, column: int },
    Comment { content: Seq<char>, line: int, column: int },
}

impl View for Token {
    type V = TokenV;

    open spec fn view(&self) -> TokenV {
        match self {
            Token::LParen { location } => TokenV::LParen {
                line: location.line as int,
                column: location.column as int,
            },
            Token::RParen { location } => TokenV::RParen {
                line: location.line as int,
                column: location.column as int,
            },
            Token::LBracket { location } => TokenV::LBracket {
                line: location.line as int,
                column: location.column as int,
            },
            Token::RBracket { location } => TokenV::RBracket {
                line: location.line as int,
                column: location.column as int,
            },
            Token::Symbol { content, location } => TokenV::Symbol {
                content: content@,
                line: location.line as int,
                column: location.column as int,
            },
            Token::StrLit { content, location } => TokenV::StrLit {
                content: content@,
                line: location.line as int,
                column: location.column as int,
            },
            Token::Comment { content, location } => TokenV::Comment {
                content: content@,
                line: location.line as int,
                column: location.column as int,
            },
        }
    }
}

impl Token {
    /// The source location the token carries.
    pub fn get_location(&self) -> (r: Location)
        ensures
            match self@ {
                TokenV::LParen { line, column } => r.line == line && r.column == column,
                TokenV::RParen { line, column } => r.line == line && r.column == column,
                TokenV::LBracket { line, column } => r.line == line && r.column == column,
                TokenV::RBracket { line, column } => r.line == line && r.column == column,
                TokenV::Symbol { line, column, .. } => r.line == line && r.column == column,
                TokenV::StrLit { line, column, .. } => r.line == line && r.column == column,
                TokenV::Comment { line, column, .. } => r.line == line && r.column == column,
            },
    {
        match self {
            Token::LParen { location } => *location,
            Token::RParen { location } => *location,
            Token::LBracket { location } => *location,
            Token::RBracket { location } => *location,
            Token::Symbol { location, .. } => *location,
            Token::StrLit { location, .. } => *location,
            Token::Comment { location, .. } => *location,
        }
    }
}

pub open spec fn view_tokens(s: Seq<Token>) -> Seq<TokenV>
    decreases s,
{
    if s.len() == 0 {
        Seq::empty()
    } else {
        seq![s[0]@] + view_tokens(s.drop_first())
    }
}

proof fn lemma_view_tokens(s: Seq<Token>)
    ensures
        view_tokens(s).len() == s.len(),
        forall|i: int| 0 <= i < s.len() ==> view_tokens(s)[i] == s[i]@,
    decreases s.len(),
{
    if s.len() > 0 {
        lemma_view_tokens(s.drop_first());
        assert(view_tokens(s) == seq![s[0]@] + view_tokens(s.drop_first()));
        assert forall|i: int| 0 <= i < s.len() implies view_tokens(s)[i] == s[i]@ by {
            if i > 0 {
                assert(s.drop_first()[i - 1] == s[i]);
                assert(view_tokens(s)[i] == view_tokens(s.drop_first())[i - 1]);
            } else {
                assert(view_tokens(s)[0] == s[0]@);
            }
        }
    }
}

/// What went wrong while reading.
#[derive(Debug, Clone, Copy, PartialEq, Eq, Structural)]
pub enum ParseErrorKind {
    UnterminatedString,
    UnexpectedClosingDelimiter,
    UnterminatedExpression,
    MissingOpeningDelimiter,
}

/// A syntax error, carrying the location of the offending token.
#[derive(Debug, Clone, Copy, PartialEq, Eq, Structural)]
pub struct ParseError {
    pub kind: ParseErrorKind,
    pub location: Location,
}

impl ParseError {
    pub fn new(kind: ParseErrorKind, location: Location) -> (r: Self)
        ensures
            r.kind == kind,
            r.location == location,
    {
        Self { kind, location }
    }

    /// The diagnostic message of the error.
    pub fn message(&self) -> (r: String)
        ensures
            r@ == error_message(self.kind),
    {
        match self.kind {
            ParseErrorKind::UnterminatedString => String::from_str("Unterminated string literal"),
            ParseErrorKind::UnexpectedClosingDelimiter => String::from_str(
                "Unexpected closing delimiter",
            ),
            ParseErrorKind::UnterminatedExpression => String::from_str("Missing closing delimiter"),
            ParseErrorKind::MissingOpeningDelimiter => String::from_str(
                "Expression missing opening paren/bracket",
            ),
        }
    }
}

/// The diagnostic text of each kind of syntax error.
pub open spec fn error_message(kind: ParseErrorKind) -> Seq<char> {
    match kind {
        ParseErrorKind::UnterminatedString => "Unterminated string literal"@,
        ParseErrorKind::UnexpectedClosingDelimiter => "Unexpected closing delimiter"@,
        ParseErrorKind::UnterminatedExpression => "Missing closing delimiter"@,
        ParseErrorKind::MissingOpeningDelimiter => "Expression missing opening paren/bracket"@,
    }
}

/// The mode of the tokenizer's scan.
#[derive(Debug, Clone, Copy, PartialEq, Eq, Structural)]
pub enum ParseMode {
    Normal,
    InString,
    InComment,
}

/// The whole state of the tokenizer between two characters.
#[verifier::ext_equal]
pub struct LexSt {
    pub mode: ParseMode,
    pub in_symbol: bool,
    pub cur_sym: Seq<char>,
    pub cur_str: Seq<char>,
    pub cur_com: Seq<char>,
    pub line: int,
    pub column: int,
    pub this_line: int,
    pub this_column: int,
    pub mark_pos: bool,
    pub toks: Seq<TokenV>,
}

pub open spec fn lex_init() -> LexSt {
    LexSt {
        mode: ParseMode::Normal,
        in_symbol: false,
        cur_sym: Seq::empty(),
        cur_str: Seq::empty(),
        cur_com: Seq::empty(),
        line: 1,
        column: 0,
        this_line: 1,
        this_column: 0,
        mark_pos: true,
        toks: Seq::empty(),
    }
}

/// One step of the tokenizer's state machine, on one character.
pub open spec fn lex_step(st: LexSt, c: char) -> LexSt {
    let line = if c == '\n' {
        st.line + 1
    } else {
        st.line
    };
    let column = if c == '\n' {
        0
    } else {
        st.column + 1
    };
    let this_line = if st.mark_pos {
        line
    } else {
        st.this_line
    };
    let this_column = if st.mark_pos {
        column
    } else {
        st.this_column
    };
    let st1 = LexSt { line, column, this_line, this_column, ..st };
    match st.mode {
        ParseMode::InString => if c == '"' {
            LexSt {
                mode: ParseMode::Normal,
                toks: st1.toks.push(
                    TokenV::StrLit { content: st1.cur_str, line: this_line, column: this_column },
                ),
                cur_str: Seq::empty(),
                mark_pos: false,
                ..st1
            }
        } else {
            LexSt { cur_str: st1.cur_str.push(c), mark_pos: false, ..st1 }
        },
        ParseMode::Normal => if c == '(' {
            LexSt {
                toks: st1.toks.push(TokenV::LParen { line, column }),
                mark_pos: true,
                ..st1
            }
        } else if c == ')' || c == ']' {
            let closing = if c == ')' {
                TokenV::RParen { line, column }
            } else {
                TokenV::RBracket { line, column }
            };
            if st1.in_symbol {
                LexSt {
                    toks: st1.toks.push(
                        TokenV::Symbol {
                            content: st1.cur_sym,
                            line: this_line,
                            column: this_column,
                        },
                    ).push(closing),
                    cur_sym: Seq::empty(),
                    in_symbol: false,
                    mark_pos: true,
                    ..st1
                }
            } else {
                LexSt { toks: st1.toks.push(closing), mark_pos: true, ..st1 }
            }
        } else if c == '[' {
            LexSt {
                toks: st1.toks.push(TokenV::LBracket { line, column }),
                mark_pos: true,
                ..st1
            }
        } else if c == '"' {
            LexSt { mode: ParseMode::InString, mark_pos: false, ..st1 }
        } else if c == ' ' || c == '\n' {
            if st1.in_symbol && st1.cur_sym.len() > 0 {
                LexSt {
                    toks: st1.toks.push(
                        TokenV::Symbol {
                            content: st1.cur_sym,
                            line: this_line,
                            column: this_column,
                        },
                    ),
                    cur_sym: Seq::empty(),
                    in_symbol: false,
                    mark_pos: true,
                    ..st1
                }
            } else {
                LexSt { mark_pos: true, ..st1 }
            }
        } else if c == ';' {
            LexSt { mode: ParseMode::InComment, ..st1 }
        } else {
            LexSt { in_symbol: true, cur_sym: st1.cur_sym.push(c), mark_pos: false, ..st1 }
        },
        ParseMode::InComment => if c == '\n' {
            if st1.cur_com.len() > 0 {
                LexSt {
                    toks: st1.toks.push(
                        TokenV::Comment {
                            content: st1.cur_com,
                            line: this_line,
                            column: this_column,
                        },
                    ),
                    cur_com: Seq::empty(),
                    mode: ParseMode::Normal,
                    mark_pos: true,
                    ..st1
                }
            } else {
                LexSt { mode: ParseMode::Normal, mark_pos: true, ..st1 }
            }
        } else {
            LexSt { cur_com: st1.cur_com.push(c), mark_pos: false, ..st1 }
        },
    }
}

/// The tokenizer's state after the first `i` characters.
pub open spec fn lex_fold(s: Seq<char>, i: int) -> LexSt
    decreases i,
{
    if i <= 0 {
        lex_init()
    } else {
        lex_step(lex_fold(s, i - 1), s[i - 1])
    }
}

/// The outcome of tokenizing a whole text: the token stream, or an
/// unterminated string literal, which is the tokenizer's only failure.
pub open spec fn lex_spec(s: Seq<char>) -> Result<Seq<TokenV>, ParseError> {
    let st = lex_fold(s, s.len() as int);
    if st.mode is InString {
        Err(
            ParseError {
                kind: ParseErrorKind::UnterminatedString,
                location: Location {
                    line: st.this_line as usize,
                    column: st.this_column as usize,
                },
            },
        )
    } else if st.in_symbol {
        Ok(
            st.toks.push(
                TokenV::Symbol {
                    content: st.cur_sym,
                    line: st.this_line,
                    column: st.this_column,
                },
            ),
        )
    } else {
        Ok(st.toks)
    }
}

/// Turns source text into a stream of tokens, attaching line and
/// column to each; reaching the end of the input inside a string
/// literal is the only failure.
pub fn tokenize(source: String) -> (r: Result<Vec<Token>, ParseError>)
    requires
        source@.len() < usize::MAX,
    ensures
        match r {
            Ok(toks) => lex_spec(source@) == Ok::<Seq<TokenV>, ParseError>(view_tokens(toks@)),
            Err(e) => lex_spec(source@) == Err::<Seq<TokenV>, ParseError>(e),
        },
{
    let chars = to_chars(source.as_str());
    let mut mode = ParseMode::Normal;
    let mut in_symbol = false;
    let mut cur_sym: Vec<char> = Vec::new();
    let mut cur_str: Vec<char> = Vec::new();
    let mut cur_com: Vec<char> = Vec::new();
    let mut toks: Vec<Token> = Vec::new();
    let mut line: usize = 1;
    let mut column: usize = 0;
    let mut this_line: usize = 1;
    let mut this_column: usize = 0;
    let mut mark_pos = true;
    let mut i: usize = 0;
    while i < chars.len()
        invariant
            i <= chars@.len(),
            chars@.len() < usize::MAX,
            line <= 1 + i,
            column <= i,
            this_line <= line,
            this_column <= if i == 0 { 0int } else { i as int },
            lex_fold(chars@, i as int) == (LexSt {
                mode: mode,
                in_symbol: in_symbol,
                cur_sym: cur_sym@,
                cur_str: cur_str@,
                cur_com: cur_com@,
                line: line as int,
                column: column as int,
                this_line: this_line as int,
                this_column: this_column as int,
                mark_pos: mark_pos,
                toks: view_tokens(toks@),
            }),
        decreases chars@.len() - i,
    {
        let c = chars[i];
        let ghost st0 = lex_fold(chars@, i as int);
        proof {
            lemma_view_tokens(toks@);
        }
        if c == '\n' {
            line = line + 1;
            column = 0;
        } else {
            column = column + 1;
        }
        if mark_pos {
            this_line = line;
            this_column = column;
        }
        match mode {
            ParseMode::InString => {
                if c == '"' {
                    mode = ParseMode::Normal;
                    let ghost toks0 = toks@;
                    toks.push(
                        Token::StrLit {
                            content: from_chars(&cur_str),
                            location: Location::new(this_line, this_column),
                        },
                    );
                    proof {
                        lemma_view_tokens(toks@);
                        assert(view_tokens(toks@) =~= view_tokens(toks0).push(
                            TokenV::StrLit {
                                content: cur_str@,
                                line: this_line as int,
                                column: this_column as int,
                            },
                        ));
                    }
                    cur_str = Vec::new();
                    mark_pos = false;
                } else {
                    cur_str.push(c);
                    mark_pos = false;
                }
            },
            ParseMode::Normal => {
                if c == '(' {
                    let ghost toks0 = toks@;
                    toks.push(Token::LParen { location: Location::new(line, column) });
                    proof {
                        lemma_view_tokens(toks@);
                        assert(view_tokens(toks@) =~= view_tokens(toks0).push(
                            TokenV::LParen { line: line as int, column: column as int },
                        ));
                    }
                    mark_pos = true;
                } else if c == ')' || c == ']' {
                    if in_symbol {
                        let ghost toks0 = toks@;
                        toks.push(
                            Token::Symbol {
                                content: from_chars(&cur_sym),
                                location: Location::new(this_line, this_column),
                            },
                        );
                        proof {
                            lemma_view_tokens(toks@);
                            assert(view_tokens(toks@) =~= view_tokens(toks0).push(
                                TokenV::Symbol {
                                    content: cur_sym@,
                                    line: this_line as int,
                                    column: this_column as int,
                                },
                            ));
                        }
                        cur_sym = Vec::new();
                        in_symbol = false;
                    }
                    let ghost toks1 = toks@;
                    if c == ')' {
                        toks.push(Token::RParen { location: Location::new(line, column) });
                        proof {
                            lemma_view_tokens(toks@);
                            assert(view_tokens(toks@) =~= view_tokens(toks1).push(
                                TokenV::RParen { line: line as int, column: column as int },
                            ));
                        }
                    } else {
                        toks.push(Token::RBracket { location: Location::new(line, column) });
                        proof {
                            lemma_view_tokens(toks@);
                            assert(view_tokens(toks@) =~= view_tokens(toks1).push(
                                TokenV::RBracket { line: line as int, column: column as int },
                            ));
                        }
                    }
                    mark_pos = true;
                } else if c == '[' {
                    let ghost toks0 = toks@;
                    toks.push(Token::LBracket { location: Location::new(line, column) });
                    proof {
                        lemma_view_tokens(toks@);
                        assert(view_tokens(toks@) =~= view_tokens(toks0).push(
                            TokenV::LBracket { line: line as int, column: column as int },
                        ));
                    }
                    mark_pos = true;
                } else if c == '"' {
                    mode = ParseMode::InString;
                    mark_pos = false;
                } else if c == ' ' || c == '\n' {
                    if in_symbol && cur_sym.len() > 0 {
                        let ghost toks0 = toks@;
                        toks.push(
                            Token::Symbol {
                                content: from_chars(&cur_sym),
                                location: Location::new(this_line, this_column),
                            },
                        );
                        proof {
                            lemma_view_tokens(toks@);
                            assert(view_tokens(toks@) =~= view_tokens(toks0).push(
                                TokenV::Symbol {
                                    content: cur_sym@,
                                    line: this_line as int,
                                    column: this_column as int,
                                },
                            ));
                        }
                        cur_sym = Vec::new();
                        in_symbol = false;
                    }
                    mark_pos = true;
                } else if c == ';' {
                    mode = ParseMode::InComment;
                } else {
                    in_symbol = true;
                    cur_sym.push(c);
                    mark_pos = false;
                }
            },
            ParseMode::InComment => {
                if c == '\n' {
                    if cur_com.len() > 0 {
                        let ghost toks0 = toks@;
                        toks.push(
                            Token::Comment {
                                content: from_chars(&cur_com),
                                location: Location::new(this_line, this_column),
                            },
                        );
                        proof {
                            lemma_view_tokens(toks@);
                            assert(view_tokens(toks@) =~= view_tokens(toks0).push(
                                TokenV::Comment {
                                    content: cur_com@,
                                    line: this_line as int,
                                    column: this_column as int,
                                },
                            ));
                        }
                        cur_com = Vec::new();
                    }
                    mode = ParseMode::Normal;
                    mark_pos = true;
                } else {
                    cur_com.push(c);
                    mark_pos = false;
                }
            },
        }
        i = i + 1;
        proof {
            assert(lex_fold(chars@, i as int) == lex_step(st0, c));
            assert(lex_fold(chars@, i as int) =~= (LexSt {
                mode: mode,
                in_symbol: in_symbol,
                cur_sym: cur_sym@,
                cur_str: cur_str@,
                cur_com: cur_com@,
                line: line as int,
                column: column as int,
                this_line: this_line as int,
                this_column: this_column as int,
                mark_pos: mark_pos,
                toks: view_tokens(toks@),
            }));
        }
    }
    match mode {
        ParseMode::InString => Err(
            ParseError {
                kind: ParseErrorKind::UnterminatedString,
                location: Location::new(this_line, this_column),
            },
        ),
        _ => {
            if in_symbol {
                let ghost toks0 = toks@;
                toks.push(
                    Token::Symbol {
                        content: from_chars(&cur_sym),
                        location: Location::new(this_line, this_column),
                    },
                );
                proof {
                    lemma_view_tokens(toks0);
                    lemma_view_tokens(toks@);
                    assert(view_tokens(toks@) =~= view_tokens(toks0).push(
                        TokenV::Symbol {
                            content: cur_sym@,
                            line: this_line as int,
                            column: this_column as int,
                        },
                    ));
                }
            }
            Ok(toks)
        },
    }
}

} // verus!

verus! {

/// An expression tree produced by the reader: a parenthesized call
/// with positional and keyword operands, a bracket-list literal, a
/// bare atom, or nothing.
#[derive(Debug)]
pub enum Exp {
    Nil,
    SExp { kind: Box<Exp>, args: Vec<Exp>, kwargs: Vec<(String, Exp)> },
    List(Vec<Exp>),
    Atom(String),
}

/// The mathematical shape of an `Exp`.
#[verifier::ext_equal]
pub enum ExpV {
    Nil,
    SExp { kind: Box<ExpV>, args: Seq<ExpV>, kwargs: Seq<(Seq<char>, ExpV)> },
    List(Seq<ExpV>),
    Atom(Seq<char>),
}

impl View for Exp {
    type V = ExpV;

    open spec fn view(&self) -> ExpV
        decreases self,
    {
        match self {
            Exp::Nil => ExpV::Nil,
            Exp::SExp { kind, args, kwargs } => ExpV::SExp {
                kind: Box::new((**kind)@),
                args: view_exps(args@),
                kwargs: view_kwargs(kwargs@),
            },
            Exp::List(items) => ExpV::List(view_exps(items@)),
            Exp::Atom(s) => ExpV::Atom(s@),
        }
    }
}

pub open spec fn view_exps(s: Seq<Exp>) -> Seq<ExpV>
    decreases s,
{
    if s.len() == 0 {
        Seq::empty()
    } else {
        seq![s[0]@] + view_exps(s.drop_first())
    }
}

pub open spec fn view_kwargs(s: Seq<(String, Exp)>) -> Seq<(Seq<char>, ExpV)>
    decreases s,
{
    if s.len() == 0 {
        Seq::empty()
    } else {
        seq![(s[0].0@, s[0].1@)] + view_kwargs(s.drop_first())
    }
}

pub proof fn lemma_view_exps(s: Seq<Exp>)
    ensures
        view_exps(s).len() == s.len(),
        forall|i: int| 0 <= i < s.len() ==> view_exps(s)[i] == s[i]@,
    decreases s.len(),
{
    if s.len() > 0 {
        lemma_view_exps(s.drop_first());
        assert(view_exps(s) == seq![s[0]@] + view_exps(s.drop_first()));
        assert forall|i: int| 0 <= i < s.len() implies view_exps(s)[i] == s[i]@ by {
            if i > 0 {
                assert(s.drop_first()[i - 1] == s[i]);
                assert(view_exps(s)[i] == view_exps(s.drop_first())[i - 1]);
            } else {
                assert(view_exps(s)[0] == s[0]@);
            }
        }
    }
}

proof fn lemma_view_kwargs(s: Seq<(String, Exp)>)
    ensures
        view_kwargs(s).len() == s.len(),
        forall|i: int| 0 <= i < s.len() ==> view_kwargs(s)[i] == (s[i].0@, s[i].1@),
    decreases s.len(),
{
    if s.len() > 0 {
        lemma_view_kwargs(s.drop_first());
        assert(view_kwargs(s) == seq![(s[0].0@, s[0].1@)] + view_kwargs(s.drop_first()));
        assert forall|i: int| 0 <= i < s.len() implies view_kwargs(s)[i] == (
            s[i].0@,
            s[i].1@,
        ) by {
            if i > 0 {
                assert(s.drop_first()[i - 1] == s[i]);
                assert(view_kwargs(s)[i] == view_kwargs(s.drop_first())[i - 1]);
            } else {
                assert(view_kwargs(s)[0] == (s[0].0@, s[0].1@));
            }
        }
    }
}

/// Binding a keyword argument: a later value for the same name
/// replaces the earlier one.
pub open spec fn kw_insert_from(
    ps: Seq<(Seq<char>, ExpV)>,
    k: Seq<char>,
    v: ExpV,
    i: int,
) -> Seq<(Seq<char>, ExpV)>
    decreases ps.len() - i,
{
    if i < 0 || i >= ps.len() {
        ps.push((k, v))
    } else if ps[i].0 == k {
        ps.update(i, (k, v))
    } else {
        kw_insert_from(ps, k, v, i + 1)
    }
}

pub open spec fn kw_insert(ps: Seq<(Seq<char>, ExpV)>, k: Seq<char>, v: ExpV) -> Seq<
    (Seq<char>, ExpV),
> {
    kw_insert_from(ps, k, v, 0)
}

proof fn lemma_kw_insert_hit(ps: Seq<(Seq<char>, ExpV)>, k: Seq<char>, v: ExpV, i: int, ix: int)
    requires
        0 <= i <= ix < ps.len(),
        ps[ix].0 == k,
        forall|j: int| i <= j < ix ==> (#[trigger] ps[j]).0 != k,
    ensures
        kw_insert_from(ps, k, v, i) == ps.update(ix, (k, v)),
    decreases ix - i,
{
    if i < ix {
        lemma_kw_insert_hit(ps, k, v, i + 1, ix);
    }
}

proof fn lemma_kw_insert_miss(ps: Seq<(Seq<char>, ExpV)>, k: Seq<char>, v: ExpV, i: int)
    requires
        0 <= i <= ps.len(),
        forall|j: int| i <= j < ps.len() ==> (#[trigger] ps[j]).0 != k,
    ensures
        kw_insert_from(ps, k, v, i) == ps.push((k, v)),
    decreases ps.len() - i,
{
    if i < ps.len() {
        lemma_kw_insert_miss(ps, k, v, i + 1);
    }
}

fn kw_upsert(acc: &mut Vec<(String, Exp)>, name: String, v: Exp)
    ensures
        view_kwargs(final(acc)@) == kw_insert(view_kwargs(old(acc)@), name@, v@),
{
    proof {
        lemma_view_kwargs(acc@);
    }
    let ghost dv = view_kwargs(acc@);
    let mut i: usize = 0;
    let mut hit: Option<usize> = None;
    while i < acc.len()
        invariant
            i <= acc@.len(),
            dv == view_kwargs(acc@),
            dv.len() == acc@.len(),
            forall|j: int| 0 <= j < acc@.len() ==> dv[j] == (acc@[j].0@, acc@[j].1@),
            match hit {
                Some(ix) => ix < i && dv[ix as int].0 == name@ && (forall|j: int|
                    0 <= j < ix ==> (#[trigger] dv[j]).0 != name@),
                None => forall|j: int| 0 <= j < i ==> (#[trigger] dv[j]).0 != name@,
            },
        decreases acc@.len() - i,
    {
        if hit.is_none() && acc[i].0.eq(&name) {
            hit = Some(i);
        }
        i = i + 1;
    }
    match hit {
        Some(ix) => {
            proof {
                lemma_kw_insert_hit(dv, name@, v@, 0, ix as int);
            }
            let ghost before = acc@;
            acc.remove(ix);
            acc.insert(ix, (name, v));
            proof {
                assert(acc@ =~= before.update(ix as int, acc@[ix as int]));
                lemma_view_kwargs(acc@);
                assert(view_kwargs(acc@) =~= dv.update(ix as int, (name@, v@)));
            }
        },
        None => {
            proof {
                lemma_kw_insert_miss(dv, name@, v@, 0);
            }
            acc.push((name, v));
            proof {
                lemma_view_kwargs(acc@);
                assert(view_kwargs(acc@) =~= dv.push((name@, v@)));
            }
        },
    }
}

/// The keyword-argument state machine of `new_sexp`, walking the
/// elements after the operator: a `:name` atom switches to awaiting
/// that keyword's value, which the very next element supplies.
pub open spec fn ns_loop(
    contents: Seq<ExpV>,
    i: int,
    args: Seq<ExpV>,
    kwargs: Seq<(Seq<char>, ExpV)>,
    in_kwarg: bool,
    this_kwarg: Seq<char>,
) -> (Seq<ExpV>, Seq<(Seq<char>, ExpV)>)
    decreases contents.len() - i,
{
    if i < 1 || i >= contents.len() {
        (args, kwargs)
    } else {
        let c = contents[i];
        if in_kwarg {
            ns_loop(contents, i + 1, args, kw_insert(kwargs, this_kwarg, c), false, this_kwarg)
        } else {
            match c {
                ExpV::Atom(s) => if s.len() > 0 && s[0] == ':' {
                    ns_loop(contents, i + 1, args, kwargs, true, s.subrange(1, s.len() as int))
                } else {
                    ns_loop(contents, i + 1, args.push(c), kwargs, false, this_kwarg)
                },
                _ => ns_loop(contents, i + 1, args.push(c), kwargs, false, this_kwarg),
            }
        }
    }
}

/// What `new_sexp` builds from the elements of a parenthesized group:
/// the first element is the operator, and the rest split into
/// positional and keyword operands.
pub open spec fn new_sexp_spec(contents: Seq<ExpV>) -> ExpV {
    let kind = if contents.len() == 0 {
        ExpV::Nil
    } else {
        contents[0]
    };
    let (args, kwargs) = ns_loop(contents, 1, Seq::empty(), Seq::empty(), false, Seq::empty());
    ExpV::SExp { kind: Box::new(kind), args, kwargs }
}

impl Exp {
    /// A structural copy: the result has the same view as the
    /// original.
    pub fn duplicate(&self) -> (r: Exp)
        ensures
            r@ == self@,
        decreases self,
    {
        match self {
            Exp::Nil => Exp::Nil,
            Exp::Atom(s) => Exp::Atom(s.clone()),
            Exp::List(items) => {
                let mut out: Vec<Exp> = Vec::new();
                let mut i: usize = 0;
                proof {
                    lemma_view_exps(items@);
                }
                while i < items.len()
                    invariant
                        i <= items@.len(),
                        *self == Exp::List(*items),
                        out@.len() == i,
                        view_exps(items@).len() == items@.len(),
                        forall|j: int| 0 <= j < items@.len() ==> view_exps(items@)[j] == items@[j]@,
                        forall|j: int| 0 <= j < i ==> out@[j]@ == items@[j]@,
                    decreases items@.len() - i,
                {
                    proof {
                        assert(decreases_to!(*self => self->List_0));
                        assert(self->List_0 == *items);
                        assert(decreases_to!(*items => items@));
                        assert(decreases_to!(items@ => items@[i as int]));
                        assert(decreases_to!(*self => items@[i as int]));
                    }
                    out.push(items[i].duplicate());
                    i = i + 1;
                }
                proof {
                    lemma_view_exps(out@);
                    assert(view_exps(out@) =~= view_exps(items@));
                }
                Exp::List(out)
            },
            Exp::SExp { kind, args, kwargs } => {
                let kcopy = Box::new((**kind).duplicate());
                let mut aout: Vec<Exp> = Vec::new();
                let mut i: usize = 0;
                proof {
                    lemma_view_exps(args@);
                }
                while i < args.len()
                    invariant
                        i <= args@.len(),
                        *self == (Exp::SExp { kind: *kind, args: *args, kwargs: *kwargs }),
                        aout@.len() == i,
                        view_exps(args@).len() == args@.len(),
                        forall|j: int| 0 <= j < args@.len() ==> view_exps(args@)[j] == args@[j]@,
                        forall|j: int| 0 <= j < i ==> aout@[j]@ == args@[j]@,
                    decreases args@.len() - i,
                {
                    proof {
                        assert(decreases_to!(*self => self->SExp_args));
                        assert(self->SExp_args == *args);
                        assert(decreases_to!(*args => args@));
                        assert(decreases_to!(args@ => args@[i as int]));
                        assert(decreases_to!(*self => args@[i as int]));
                    }
                    aout.push(args[i].duplicate());
                    i = i + 1;
                }
                let mut kwout: Vec<(String, Exp)> = Vec::new();
                let mut j: usize = 0;
                proof {
                    lemma_view_kwargs(kwargs@);
                }
                while j < kwargs.len()
                    invariant
                        j <= kwargs@.len(),
                        *self == (Exp::SExp { kind: *kind, args: *args, kwargs: *kwargs }),
                        kwout@.len() == j,
                        view_kwargs(kwargs@).len() == kwargs@.len(),
                        forall|t: int|
                            0 <= t < kwargs@.len() ==> view_kwargs(kwargs@)[t] == (
                                kwargs@[t].0@,
                                kwargs@[t].1@,
                            ),
                        forall|t: int|
                            0 <= t < j ==> kwout@[t].0@ == kwargs@[t].0@ && kwout@[t].1@
                                == kwargs@[t].1@,
                    decreases kwargs@.len() - j,
                {
                    proof {
                        assert(decreases_to!(*self => self->SExp_kwargs));
                        assert(self->SExp_kwargs == *kwargs);
                        assert(decreases_to!(*kwargs => kwargs@));
                        assert(decreases_to!(kwargs@ => kwargs@[j as int]));
                        assert(decreases_to!(kwargs@[j as int] => kwargs@[j as int].1));
                        assert(decreases_to!(*self => kwargs@[j as int].1));
                    }
                    kwout.push((kwargs[j].0.clone(), kwargs[j].1.duplicate()));
                    j = j + 1;
                }
                proof {
                    lemma_view_exps(aout@);
                    lemma_view_kwargs(kwout@);
                    assert(view_exps(aout@) =~= view_exps(args@));
                    assert(view_kwargs(kwout@) =~= view_kwargs(kwargs@));
                }
                Exp::SExp { kind: kcopy, args: aout, kwargs: kwout }
            },
        }
    }

    /// Gathers the elements of a parenthesized group into a call form,
    /// desugaring `:name value` pairs into keyword operands.
    pub fn new_sexp(contents: Vec<Exp>) -> (r: Exp)
        ensures
            r@ == new_sexp_spec(view_exps(contents@)),
    {
        proof {
            lemma_view_exps(contents@);
        }
        let ghost cv = view_exps(contents@);
        let kind: Exp = if contents.len() == 0 {
            Exp::Nil
        } else {
            contents[0].duplicate()
        };
        let mut args: Vec<Exp> = Vec::new();
        let mut kwargs: Vec<(String, Exp)> = Vec::new();
        let mut in_kwarg = false;
        let mut this_kwarg = String::new();
        let mut i: usize = 1;
        proof {
            assert(view_exps(args@) =~= Seq::<ExpV>::empty());
            assert(view_kwargs(kwargs@) =~= Seq::<(Seq<char>, ExpV)>::empty());
            assert(this_kwarg@ =~= Seq::<char>::empty());
        }
        while i < contents.len()
            invariant
                1 <= i <= contents@.len() || (contents@.len() == 0 && i == 1),
                cv == view_exps(contents@),
                cv.len() == contents@.len(),
                forall|j: int| 0 <= j < contents@.len() ==> cv[j] == contents@[j]@,
                ns_loop(cv, 1, Seq::empty(), Seq::empty(), false, Seq::empty()) == ns_loop(
                    cv,
                    i as int,
                    view_exps(args@),
                    view_kwargs(kwargs@),
                    in_kwarg,
                    this_kwarg@,
                ),
            decreases contents@.len() - i,
        {
            let c = contents[i].duplicate();
            if in_kwarg {
                kw_upsert(&mut kwargs, this_kwarg.clone(), c);
                in_kwarg = false;
            } else {
                let mut handled = false;
                match &contents[i] {
                    Exp::Atom(s) => {
                        let sc = to_chars(s.as_str());
                        if sc.len() > 0 && sc[0] == ':' {
                            this_kwarg = from_chars(&sub_list(&sc, 1, sc.len()));
                            in_kwarg = true;
                            handled = true;
                        }
                    },
                    _ => {},
                }
                if !handled {
                    let ghost args0 = args@;
                    args.push(c);
                    proof {
                        lemma_view_exps(args0);
                        lemma_view_exps(args@);
                        assert(view_exps(args@) =~= view_exps(args0).push(contents@[i as int]@));
                    }
                }
            }
            i = i + 1;
        }
        proof {
            assert(ns_loop(cv, i as int, view_exps(args@), view_kwargs(kwargs@), in_kwarg, this_kwarg@)
                == (view_exps(args@), view_kwargs(kwargs@)));
        }
        let ghost kv = kind@;
        let r = Exp::SExp { kind: Box::new(kind), args, kwargs };
        proof {
            assert(kv == if cv.len() == 0 { ExpV::Nil } else { cv[0] });
            assert(r@ is SExp);
            assert(r@->SExp_kind == Box::new(kv));
            assert(new_sexp_spec(cv)->SExp_kind == Box::new(
                if cv.len() == 0 { ExpV::Nil } else { cv[0] },
            ));
            assert(r@->SExp_kind == new_sexp_spec(cv)->SExp_kind);
            assert(r@->SExp_args == new_sexp_spec(cv)->SExp_args);
            assert(r@->SExp_kwargs == new_sexp_spec(cv)->SExp_kwargs);
            assert(r@ =~~= new_sexp_spec(cv));
        }
        r
    }

    /// The atom's text, for a bare atom.
    pub fn as_symbol(&self) -> (r: Option<String>)
        ensures
            match self@ {
                ExpV::Atom(s) => r matches Some(t) && t@ == s,
                _ => r is None,
            },
    {
        match self {
            Exp::Atom(s) => Some(s.clone()),
            _ => None,
        }
    }

    /// The operator's text, for a call form whose operator is an atom.
    pub fn car_symbol(&self) -> (r: Option<String>)
        ensures
            match self@ {
                ExpV::SExp { kind, .. } => match *kind {
                    ExpV::Atom(s) => r matches Some(t) && t@ == s,
                    _ => r is None,
                },
                _ => r is None,
            },
    {
        match self {
            Exp::SExp { kind, .. } => (**kind).as_symbol(),
            _ => None,
        }
    }

    /// The positional operands of a call form, copied out.
    pub fn args(&self) -> (r: Option<Vec<Exp>>)
        ensures
            match self@ {
                ExpV::SExp { args, .. } => r matches Some(v) && view_exps(v@) == args,
                _ => r is None,
            },
    {
        match self {
            Exp::SExp { args, .. } => {
                let mut out: Vec<Exp> = Vec::new();
                let mut i: usize = 0;
                proof {
                    lemma_view_exps(args@);
                }
                while i < args.len()
                    invariant
                        i <= args@.len(),
                        out@.len() == i,
                        view_exps(args@).len() == args@.len(),
                        forall|j: int| 0 <= j < args@.len() ==> view_exps(args@)[j] == args@[j]@,
                        forall|j: int| 0 <= j < i ==> out@[j]@ == args@[j]@,
                    decreases args@.len() - i,
                {
                    out.push(args[i].duplicate());
                    i = i + 1;
                }
                proof {
                    lemma_view_exps(out@);
                    assert(view_exps(out@) =~= view_exps(args@));
                }
                Some(out)
            },
            _ => None,
        }
    }

    /// One positional operand of a call form, by index.
    pub fn arg(&self, index: usize) -> (r: Option<Exp>)
        ensures
            match self@ {
                ExpV::SExp { args, .. } => if index < args.len() {
                    r matches Some(e) && e@ == args[index as int]
                } else {
                    r is None
                },
                _ => r is None,
            },
    {
        match self {
            Exp::SExp { args, .. } => {
                proof {
                    lemma_view_exps(args@);
                }
                if index < args.len() {
                    Some(args[index].duplicate())
                } else {
                    None
                }
            },
            _ => None,
        }
    }

    /// One positional operand's text, for an operand that is an atom.
    pub fn arg_symbol(&self, index: usize) -> (r: Option<String>)
        ensures
            match self@ {
                ExpV::SExp { args, .. } => if index < args.len() && args[index as int] is Atom {
                    r matches Some(t) && t@ == args[index as int]->Atom_0
                } else {
                    r is None
                },
                _ => r is None,
            },
    {
        match self.arg(index) {
            Some(v) => v.as_symbol(),
            None => None,
        }
    }
}

fn sub_list(v: &Vec<char>, a: usize, b: usize) -> (r: Vec<char>)
    requires
        a <= b <= v@.len(),
    ensures
        r@ == v@.subrange(a as int, b as int),
{
    let mut out: Vec<char> = Vec::new();
    let mut i: usize = a;
    while i < b
        invariant
            a <= i <= b <= v@.len(),
            out@ == v@.subrange(a as int, i as int),
        decreases b - i,
    {
        out.push(v[i]);
        i = i + 1;
        proof {
            assert(out@ =~= v@.subrange(a as int, i as int));
        }
    }
    proof {
        assert(out@ =~= v@.subrange(a as int, b as int));
    }
    out
}

} // verus!

verus! {

/// The source position a token carries, as a line and column pair.
pub open spec fn tok_loc(t: TokenV) -> (int, int) {
    match t {
        TokenV::LParen { line, column } => (line, column),
        TokenV::RParen { line, column } => (line, column),
        TokenV::LBracket { line, column } => (line, column),
        TokenV::RBracket { line, column } => (line, column),
        TokenV::Symbol { line, column, .. } => (line, column),
        TokenV::StrLit { line, column, .. } => (line, column),
        TokenV::Comment { line, column, .. } => (line, column),
    }
}

pub open spec fn loc_of(p: (int, int)) -> Location {
    Location { line: p.0 as usize, column: p.1 as usize }
}

/// What an atom token reads as: the symbol `nil` is the empty
/// expression, any other symbol or string literal an atom; delimiters
/// and comments read as nothing.
pub open spec fn process_atom_spec(t: TokenV) -> Option<ExpV> {
    match t {
        TokenV::Symbol { content, .. } => if content == "nil"@ {
            Some(ExpV::Nil)
        } else {
            Some(ExpV::Atom(content))
        },
        TokenV::StrLit { content, .. } => Some(ExpV::Atom(content)),
        _ => None,
    }
}

/// Reads one atom token as an expression, if it is an atom.
pub fn process_atom(token: &Token) -> (r: Option<Exp>)
    ensures
        match r {
            Some(e) => process_atom_spec(token@) == Some(e@),
            None => process_atom_spec(token@) is None,
        },
{
    match token {
        Token::Symbol { content, .. } => {
            let nil_name = String::from_str("nil");
            if content.eq(&nil_name) {
                Some(Exp::Nil)
            } else {
                Some(Exp::Atom(content.clone()))
            }
        },
        Token::StrLit { content, .. } => Some(Exp::Atom(content.clone())),
        _ => None,
    }
}

/// The scan for the closing delimiter of an open group, tracking
/// nesting depth; `start_loc` is where the group opened.
pub open spec fn fee_loop(
    toks: Seq<TokenV>,
    in_list: bool,
    i: int,
    nesting: int,
    start_loc: (int, int),
) -> Result<int, ParseError>
    decreases toks.len() - i,
{
    if i < 0 || i >= toks.len() {
        Err(
            ParseError {
                kind: ParseErrorKind::UnterminatedExpression,
                location: loc_of(start_loc),
            },
        )
    } else {
        match toks[i] {
            TokenV::LParen { .. } => fee_loop(toks, in_list, i + 1, nesting + 1, start_loc),
            TokenV::LBracket { .. } => fee_loop(toks, in_list, i + 1, nesting + 1, start_loc),
            TokenV::RParen { .. } => if nesting == 0 {
                Err(
                    ParseError {
                        kind: ParseErrorKind::UnterminatedExpression,
                        location: loc_of(start_loc),
                    },
                )
            } else if nesting == 1 {
                if in_list {
                    Err(
                        ParseError {
                            kind: ParseErrorKind::UnterminatedExpression,
                            location: loc_of(start_loc),
                        },
                    )
                } else {
                    Ok(i)
                }
            } else {
                fee_loop(toks, in_list, i + 1, nesting - 1, start_loc)
            },
            TokenV::RBracket { line, column } => if nesting == 0 {
                Err(
                    ParseError {
                        kind: ParseErrorKind::UnexpectedClosingDelimiter,
                        location: loc_of((line, column)),
                    },
                )
            } else if nesting == 1 {
                if !in_list {
                    Err(
                        ParseError {
                            kind: ParseErrorKind::UnexpectedClosingDelimiter,
                            location: loc_of((line, column)),
                        },
                    )
                } else {
                    Ok(i)
                }
            } else {
                fee_loop(toks, in_list, i + 1, nesting - 1, start_loc)
            },
            _ => fee_loop(toks, in_list, i + 1, nesting, start_loc),
        }
    }
}

/// The index of the closing delimiter matching the opener at `start`.
pub open spec fn fee_spec(toks: Seq<TokenV>, start: int, in_list: bool) -> Result<int, ParseError> {
    let sl = if 0 <= start < toks.len() {
        tok_loc(toks[start])
    } else {
        (0int, 0int)
    };
    fee_loop(toks, in_list, start, 0, sl)
}

proof fn lemma_fee_loop(
    toks: Seq<TokenV>,
    in_list: bool,
    i: int,
    nesting: int,
    start_loc: (int, int),
)
    requires
        0 <= i <= toks.len(),
    ensures
        match fee_loop(toks, in_list, i, nesting, start_loc) {
            Ok(j) => i <= j < toks.len(),
            Err(_) => true,
        },
    decreases toks.len() - i,
{
    if i < toks.len() {
        match toks[i] {
            TokenV::LParen { .. } => lemma_fee_loop(toks, in_list, i + 1, nesting + 1, start_loc),
            TokenV::LBracket { .. } => lemma_fee_loop(toks, in_list, i + 1, nesting + 1, start_loc),
            TokenV::RParen { .. } => if nesting != 0 && nesting != 1 {
                lemma_fee_loop(toks, in_list, i + 1, nesting - 1, start_loc)
            },
            TokenV::RBracket { .. } => if nesting != 0 && nesting != 1 {
                lemma_fee_loop(toks, in_list, i + 1, nesting - 1, start_loc)
            },
            _ => lemma_fee_loop(toks, in_list, i + 1, nesting, start_loc),
        }
    }
}

fn fee_at(
    toks: &Vec<Token>,
    in_list: bool,
    i: usize,
    nesting: u128,
    start_loc: Location,
) -> (r: Result<usize, ParseError>)
    requires
        i <= toks@.len(),
        nesting <= i + 1,
    ensures
        ({
            let sv = fee_loop(
                view_tokens(toks@),
                in_list,
                i as int,
                nesting as int,
                (start_loc.line as int, start_loc.column as int),
            );
            match r {
                Ok(j) => sv == Ok::<int, ParseError>(j as int) && i <= j < toks@.len(),
                Err(e) => sv == Err::<int, ParseError>(e),
            }
        }),
    decreases toks@.len() - i,
{
    proof {
        lemma_view_tokens(toks@);
        lemma_fee_loop(
            view_tokens(toks@),
            in_list,
            i as int,
            nesting as int,
            (start_loc.line as int, start_loc.column as int),
        );
    }
    if i == toks.len() {
        Err(ParseError::new(ParseErrorKind::UnterminatedExpression, start_loc))
    } else {
        match &toks[i] {
            Token::LParen { .. } => fee_at(toks, in_list, i + 1, nesting + 1, start_loc),
            Token::LBracket { .. } => fee_at(toks, in_list, i + 1, nesting + 1, start_loc),
            Token::RParen { .. } => {
                if nesting == 0 {
                    Err(ParseError::new(ParseErrorKind::UnterminatedExpression, start_loc))
                } else if nesting == 1 {
                    if in_list {
                        Err(ParseError::new(ParseErrorKind::UnterminatedExpression, start_loc))
                    } else {
                        Ok(i)
                    }
                } else {
                    fee_at(toks, in_list, i + 1, nesting - 1, start_loc)
                }
            },
            Token::RBracket { location } => {
                if nesting == 0 {
                    Err(ParseError::new(ParseErrorKind::UnexpectedClosingDelimiter, *location))
                } else if nesting == 1 {
                    if !in_list {
                        Err(
                            ParseError::new(ParseErrorKind::UnexpectedClosingDelimiter, *location),
                        )
                    } else {
                        Ok(i)
                    }
                } else {
                    fee_at(toks, in_list, i + 1, nesting - 1, start_loc)
                }
            },
            _ => fee_at(toks, in_list, i + 1, nesting, start_loc),
        }
    }
}

} // verus!

verus! {

pub open spec fn opt_seq(o: Option<ExpV>) -> Seq<ExpV> {
    match o {
        Some(x) => seq![x],
        None => Seq::empty(),
    }
}

/// The walk of `parse_expression` over the token range: `pstart` and
/// `end` delimit the range, `contents` holds the elements gathered so
/// far, `nested` says whether a group is open, `in_list` whether that
/// group is a bracket list, and `loc` is the location last seen.
pub open spec fn pe_loop(
    toks: Seq<TokenV>,
    pstart: int,
    end: int,
    i: int,
    contents: Seq<ExpV>,
    nested: bool,
    in_list: bool,
    loc: (int, int),
) -> Result<Option<ExpV>, ParseError>
    decreases toks.len() - i,
{
    if i > end || i < 0 || i >= toks.len() {
        if nested {
            Err(
                ParseError {
                    kind: ParseErrorKind::UnterminatedExpression,
                    location: loc_of(loc),
                },
            )
        } else if in_list {
            Ok(Some(ExpV::List(contents)))
        } else if contents.len() == 0 {
            Ok(Some(ExpV::Nil))
        } else {
            Ok(Some(new_sexp_spec(contents)))
        }
    } else {
        let t = toks[i];
        let lc = tok_loc(t);
        match t {
            TokenV::LParen { .. } => if nested {
                match fee_spec(toks, i, false) {
                    Err(e) => Err(e),
                    Ok(ie) => match pe_loop(toks, i, ie, i + 1, Seq::empty(), true, false, lc) {
                        Err(e) => Err(e),
                        Ok(opt) => pe_loop(
                            toks,
                            pstart,
                            end,
                            if ie + 1 > i + 1 {
                                if ie + 1 > toks.len() {
                                    toks.len() as int
                                } else {
                                    ie + 1
                                }
                            } else {
                                i + 1
                            },
                            contents + opt_seq(opt),
                            nested,
                            in_list,
                            lc,
                        ),
                    },
                }
            } else {
                pe_loop(toks, pstart, end, i + 1, contents, true, in_list, lc)
            },
            TokenV::LBracket { .. } => if nested {
                match fee_spec(toks, i, true) {
                    Err(e) => Err(e),
                    Ok(ie) => match pe_loop(toks, i, ie, i + 1, Seq::empty(), true, true, lc) {
                        Err(e) => Err(e),
                        Ok(opt) => pe_loop(
                            toks,
                            pstart,
                            end,
                            if ie + 1 > i + 1 {
                                if ie + 1 > toks.len() {
                                    toks.len() as int
                                } else {
                                    ie + 1
                                }
                            } else {
                                i + 1
                            },
                            contents + opt_seq(opt),
                            nested,
                            in_list,
                            lc,
                        ),
                    },
                }
            } else {
                pe_loop(toks, pstart, end, i + 1, contents, true, true, lc)
            },
            TokenV::RParen { .. } => if nested {
                pe_loop(toks, pstart, end, i + 1, contents, false, in_list, lc)
            } else {
                Err(
                    ParseError {
                        kind: ParseErrorKind::UnexpectedClosingDelimiter,
                        location: loc_of(lc),
                    },
                )
            },
            TokenV::RBracket { .. } => if !in_list {
                Err(
                    ParseError {
                        kind: ParseErrorKind::UnexpectedClosingDelimiter,
                        location: loc_of(lc),
                    },
                )
            } else if nested {
                pe_loop(toks, pstart, end, i + 1, contents, false, in_list, lc)
            } else {
                Err(
                    ParseError {
                        kind: ParseErrorKind::UnexpectedClosingDelimiter,
                        location: loc_of(lc),
                    },
                )
            },
            TokenV::Symbol { .. } => if nested {
                pe_loop(
                    toks,
                    pstart,
                    end,
                    i + 1,
                    contents + opt_seq(process_atom_spec(t)),
                    nested,
                    in_list,
                    lc,
                )
            } else if end - pstart > 0 {
                Err(
                    ParseError {
                        kind: ParseErrorKind::MissingOpeningDelimiter,
                        location: loc_of(lc),
                    },
                )
            } else {
                Ok(process_atom_spec(t))
            },
            TokenV::StrLit { .. } => if nested {
                pe_loop(
                    toks,
                    pstart,
                    end,
                    i + 1,
                    contents + opt_seq(process_atom_spec(t)),
                    nested,
                    in_list,
                    lc,
                )
            } else if end - pstart > 0 {
                Err(
                    ParseError {
                        kind: ParseErrorKind::MissingOpeningDelimiter,
                        location: loc_of(lc),
                    },
                )
            } else {
                Ok(process_atom_spec(t))
            },
            TokenV::Comment { .. } => pe_loop(toks, pstart, end, i + 1, contents, nested, in_list, lc),
        }
    }
}

/// What parsing the token range `[start, end]` yields: one expression,
/// nothing for a group of comments, or a syntax error.
pub open spec fn pe_spec(toks: Seq<TokenV>, start: int, end: int) -> Result<
    Option<ExpV>,
    ParseError,
> {
    pe_loop(toks, start, end, start, Seq::empty(), false, false, (0int, 0int))
}

/// Scans from the opener at `start` to its matching closing
/// delimiter.
fn find_exp_end(tokens: &Vec<Token>, start: usize, in_list: bool) -> (r: Result<usize, ParseError>)
    ensures
        ({
            let sv = fee_spec(view_tokens(tokens@), start as int, in_list);
            match r {
                Ok(j) => sv == Ok::<int, ParseError>(j as int) && start <= j < tokens@.len(),
                Err(e) => sv == Err::<int, ParseError>(e),
            }
        }),
{
    proof {
        lemma_view_tokens(tokens@);
    }
    if start >= tokens.len() {
        let r = fee_at(tokens, in_list, tokens.len(), 0, Location::new(0, 0));
        proof {
            assert(fee_loop(
                view_tokens(tokens@),
                in_list,
                start as int,
                0,
                (0int, 0int),
            ) == fee_loop(view_tokens(tokens@), in_list, tokens@.len() as int, 0, (0int, 0int)));
        }
        r
    } else {
        let sl = tokens[start].get_location();
        fee_at(tokens, in_list, start, 0, sl)
    }
}

/// Parses the token range `[start, end]` into one expression tree;
/// syntax errors carry the location of the offending token.
pub fn parse_expression(tokens: &Vec<Token>, start: usize, end: usize) -> (r: Result<
    Option<Exp>,
    ParseError,
>)
    ensures
        ({
            let sv = pe_spec(view_tokens(tokens@), start as int, end as int);
            match r {
                Ok(Some(e)) => sv == Ok::<Option<ExpV>, ParseError>(Some(e@)),
                Ok(None) => sv == Ok::<Option<ExpV>, ParseError>(None::<ExpV>),
                Err(pe) => sv == Err::<Option<ExpV>, ParseError>(pe),
            }
        }),
    decreases (if (start as int) <= tokens@.len() { tokens@.len() - start } else { 0int }),
{
    let ghost tv = view_tokens(tokens@);
    proof {
        lemma_view_tokens(tokens@);
    }
    let mut contents: Vec<Exp> = Vec::new();
    let mut nested = false;
    let mut in_list = false;
    let mut i: usize = start;
    let mut location = Location::new(0, 0);
    proof {
        assert(view_exps(contents@) =~= Seq::<ExpV>::empty());
    }
    while i <= end && i < tokens.len()
        invariant
            start <= i,
            tv == view_tokens(tokens@),
            tv.len() == tokens@.len(),
            forall|k: int| 0 <= k < tokens@.len() ==> tv[k] == tokens@[k]@,
            nested ==> i > start,
            pe_spec(tv, start as int, end as int) == pe_loop(
                tv,
                start as int,
                end as int,
                i as int,
                view_exps(contents@),
                nested,
                in_list,
                (location.line as int, location.column as int),
            ),
        decreases (if i <= end { end + 1 - i } else { 0int }),
    {
        let ghost lg0 = (location.line as int, location.column as int);
        let ghost c0 = view_exps(contents@);
        let ghost nested0 = nested;
        let ghost in_list0 = in_list;
        location = tokens[i].get_location();
        let ghost lc = tok_loc(tv[i as int]);
        proof {
            assert((location.line as int, location.column as int) == lc);
        }
        match &tokens[i] {
            Token::LParen { .. } => {
                if nested {
                    let inner_end = match find_exp_end(tokens, i, false) {
                        Ok(j) => j,
                        Err(e) => {
                            return Err(e);
                        },
                    };
                    proof {
                        assert(pe_loop(
                            tv,
                            i as int,
                            inner_end as int,
                            i as int,
                            Seq::empty(),
                            false,
                            false,
                            (0int, 0int),
                        ) == pe_loop(
                            tv,
                            i as int,
                            inner_end as int,
                            i as int + 1,
                            Seq::empty(),
                            true,
                            false,
                            lc,
                        ));
                        assert(pe_spec(tv, i as int, inner_end as int) == pe_loop(
                            tv,
                            i as int,
                            inner_end as int,
                            i as int + 1,
                            Seq::empty(),
                            true,
                            false,
                            lc,
                        ));
                    }
                    match parse_expression(tokens, i, inner_end) {
                        Ok(Some(x)) => {
                            let ghost cvec0 = contents@;
                            let ghost cbefore = view_exps(contents@);
                            let ghost xv = x@;
                            contents.push(x);
                            proof {
                                lemma_view_exps(cvec0);
                                lemma_view_exps(contents@);
                                assert(view_exps(contents@) =~= cbefore + opt_seq(Some(xv)));
                            }
                        },
                        Ok(None) => {
                            proof {
                                assert(view_exps(contents@) =~= c0 + opt_seq(None::<ExpV>));
                            }
                        },
                        Err(e) => {
                            return Err(e);
                        },
                    }
                    i = inner_end;
                } else {
                    nested = true;
                }
            },
            Token::LBracket { .. } => {
                if nested {
                    let inner_end = match find_exp_end(tokens, i, true) {
                        Ok(j) => j,
                        Err(e) => {
                            return Err(e);
                        },
                    };
                    proof {
                        assert(pe_loop(
                            tv,
                            i as int,
                            inner_end as int,
                            i as int,
                            Seq::empty(),
                            false,
                            false,
                            (0int, 0int),
                        ) == pe_loop(
                            tv,
                            i as int,
                            inner_end as int,
                            i as int + 1,
                            Seq::empty(),
                            true,
                            true,
                            lc,
                        ));
                        assert(pe_spec(tv, i as int, inner_end as int) == pe_loop(
                            tv,
                            i as int,
                            inner_end as int,
                            i as int + 1,
                            Seq::empty(),
                            true,
                            true,
                            lc,
                        ));
                    }
                    match parse_expression(tokens, i, inner_end) {
                        Ok(Some(x)) => {
                            let ghost cvec0 = contents@;
                            let ghost cbefore = view_exps(contents@);
                            let ghost xv = x@;
                            contents.push(x);
                            proof {
                                lemma_view_exps(cvec0);
                                lemma_view_exps(contents@);
                                assert(view_exps(contents@) =~= cbefore + opt_seq(Some(xv)));
                            }
                        },
                        Ok(None) => {
                            proof {
                                assert(view_exps(contents@) =~= c0 + opt_seq(None::<ExpV>));
                            }
                        },
                        Err(e) => {
                            return Err(e);
                        },
                    }
                    i = inner_end;
                } else {
                    nested = true;
                    in_list = true;
                }
            },
            Token::RParen { .. } => {
                if nested {
                    nested = false;
                } else {
                    return Err(
                        ParseError::new(ParseErrorKind::UnexpectedClosingDelimiter, location),
                    );
                }
            },
            Token::RBracket { location: rloc } => {
                if !in_list {
                    return Err(ParseError::new(ParseErrorKind::UnexpectedClosingDelimiter, *rloc));
                }
                if nested {
                    nested = false;
                } else {
                    return Err(ParseError::new(ParseErrorKind::UnexpectedClosingDelimiter, *rloc));
                }
            },
            Token::Symbol { .. } => {
                if nested {
                    match process_atom(&tokens[i]) {
                        Some(atom) => {
                            let ghost cvec0 = contents@;
                            let ghost cbefore = view_exps(contents@);
                            let ghost av = atom@;
                            contents.push(atom);
                            proof {
                                lemma_view_exps(cvec0);
                                lemma_view_exps(contents@);
                                assert(view_exps(contents@) =~= cbefore + opt_seq(Some(av)));
                                assert(opt_seq(Some(av)) =~= opt_seq(process_atom_spec(tv[i as int])));
                            }
                        },
                        None => {
                        },
                    }
                } else {
                    if end > start {
                        return Err(
                            ParseError::new(ParseErrorKind::MissingOpeningDelimiter, location),
                        );
                    } else {
                        return match process_atom(&tokens[i]) {
                            Some(a) => Ok(Some(a)),
                            None => Ok(None),
                        };
                    }
                }
            },
            Token::StrLit { .. } => {
                if nested {
                    match process_atom(&tokens[i]) {
                        Some(atom) => {
                            let ghost cvec0 = contents@;
                            let ghost cbefore = view_exps(contents@);
                            let ghost av = atom@;
                            contents.push(atom);
                            proof {
                                lemma_view_exps(cvec0);
                                lemma_view_exps(contents@);
                                assert(view_exps(contents@) =~= cbefore + opt_seq(Some(av)));
                                assert(opt_seq(Some(av)) =~= opt_seq(process_atom_spec(tv[i as int])));
                            }
                        },
                        None => {
                        },
                    }
                } else {
                    if end > start {
                        return Err(
                            ParseError::new(ParseErrorKind::MissingOpeningDelimiter, location),
                        );
                    } else {
                        return match process_atom(&tokens[i]) {
                            Some(a) => Ok(Some(a)),
                            None => Ok(None),
                        };
                    }
                }
            },
            Token::Comment { .. } => {
            },
        }
        i = i + 1;
        proof {
            assert(pe_spec(tv, start as int, end as int) == pe_loop(
                tv,
                start as int,
                end as int,
                i as int,
                view_exps(contents@),
                nested,
                in_list,
                (location.line as int, location.column as int),
            ));
        }
    }
    proof {
        lemma_view_exps(contents@);
        assert(pe_spec(tv, start as int, end as int) == (if nested {
            Err::<Option<ExpV>, ParseError>(
                ParseError {
                    kind: ParseErrorKind::UnterminatedExpression,
                    location: loc_of((location.line as int, location.column as int)),
                },
            )
        } else if in_list {
            Ok::<Option<ExpV>, ParseError>(Some(ExpV::List(view_exps(contents@))))
        } else if view_exps(contents@).len() == 0 {
            Ok::<Option<ExpV>, ParseError>(Some(ExpV::Nil))
        } else {
            Ok::<Option<ExpV>, ParseError>(Some(new_sexp_spec(view_exps(contents@))))
        }));
        assert(loc_of((location.line as int, location.column as int)) == location);
    }
    if nested {
        Err(ParseError::new(ParseErrorKind::UnterminatedExpression, location))
    } else {
        if in_list {
            let ghost cfinal = view_exps(contents@);
            let r = Exp::List(contents);
            proof {
                assert(r@ =~= ExpV::List(cfinal));
            }
            Ok(Some(r))
        } else {
            if contents.len() == 0 {
                Ok(Some(Exp::Nil))
            } else {
                Ok(Some(Exp::new_sexp(contents)))
            }
        }
    }
}

} // verus!

verus! {

pub open spec fn re_push(acc: Seq<ExpV>, o: Option<ExpV>) -> Seq<ExpV> {
    match o {
        Some(x) => acc.push(x),
        None => acc,
    }
}

/// The split of a token stream into top-level forms by nesting depth,
/// each form read independently; a closing delimiter with no open
/// group is an error.
pub open spec fn re_loop(
    toks: Seq<TokenV>,
    i: int,
    nesting: int,
    start: int,
    acc: Seq<ExpV>,
) -> Result<Seq<ExpV>, ParseError>
    decreases toks.len() - i,
{
    if i < 0 || i >= toks.len() {
        if nesting > 0 {
            Err(
                ParseError {
                    kind: ParseErrorKind::UnterminatedExpression,
                    location: loc_of(
                        if 0 <= start < toks.len() {
                            tok_loc(toks[start])
                        } else {
                            (0int, 0int)
                        },
                    ),
                },
            )
        } else {
            Ok(acc)
        }
    } else {
        match toks[i] {
            TokenV::LParen { .. } => re_loop(
                toks,
                i + 1,
                nesting + 1,
                if nesting == 0 {
                    i
                } else {
                    start
                },
                acc,
            ),
            TokenV::LBracket { .. } => re_loop(
                toks,
                i + 1,
                nesting + 1,
                if nesting == 0 {
                    i
                } else {
                    start
                },
                acc,
            ),
            TokenV::RParen { line, column } => if nesting > 0 {
                if nesting == 1 {
                    match pe_spec(toks, start, i) {
                        Err(e) => Err(e),
                        Ok(opt) => re_loop(toks, i + 1, 0, start, re_push(acc, opt)),
                    }
                } else {
                    re_loop(toks, i + 1, nesting - 1, start, acc)
                }
            } else {
                Err(
                    ParseError {
                        kind: ParseErrorKind::UnexpectedClosingDelimiter,
                        location: loc_of((line, column)),
                    },
                )
            },
            TokenV::RBracket { line, column } => if nesting > 0 {
                if nesting == 1 {
                    match pe_spec(toks, start, i) {
                        Err(e) => Err(e),
                        Ok(opt) => re_loop(toks, i + 1, 0, start, re_push(acc, opt)),
                    }
                } else {
                    re_loop(toks, i + 1, nesting - 1, start, acc)
                }
            } else {
                Err(
                    ParseError {
                        kind: ParseErrorKind::UnexpectedClosingDelimiter,
                        location: loc_of((line, column)),
                    },
                )
            },
            _ => if nesting == 0 {
                re_loop(toks, i + 1, nesting, start, re_push(acc, process_atom_spec(toks[i])))
            } else {
                re_loop(toks, i + 1, nesting, start, acc)
            },
        }
    }
}

/// What reading a whole source text yields: its sequence of top-level
/// forms, or the first syntax error.
pub open spec fn read_expressions_spec(src: Seq<char>) -> Result<Seq<ExpV>, ParseError> {
    match lex_spec(src) {
        Err(e) => Err(e),
        Ok(toks) => re_loop(toks, 0, 0, 0, Seq::empty()),
    }
}

/// Reads a whole source text as a sequence of top-level forms,
/// stopping at the first syntax error.
pub fn read_expressions(source: String) -> (r: Result<Vec<Exp>, ParseError>)
    requires
        source@.len() < usize::MAX,
    ensures
        match r {
            Ok(es) => read_expressions_spec(source@) == Ok::<Seq<ExpV>, ParseError>(
                view_exps(es@),
            ),
            Err(e) => read_expressions_spec(source@) == Err::<Seq<ExpV>, ParseError>(e),
        },
{
    let toks = match tokenize(source) {
        Ok(t) => t,
        Err(e) => {
            return Err(e);
        },
    };
    let ghost tv = view_tokens(toks@);
    proof {
        lemma_view_tokens(toks@);
        assert(read_expressions_spec(source@) == re_loop(tv, 0, 0, 0, Seq::<ExpV>::empty()));
    }
    let mut acc: Vec<Exp> = Vec::new();
    let mut nesting: u128 = 0;
    let mut start: usize = 0;
    let mut i: usize = 0;
    proof {
        assert(view_exps(acc@) =~= Seq::<ExpV>::empty());
    }
    while i < toks.len()
        invariant
            i <= toks@.len(),
            tv == view_tokens(toks@),
            tv.len() == toks@.len(),
            forall|k: int| 0 <= k < toks@.len() ==> tv[k] == toks@[k]@,
            nesting <= i,
            nesting > 0 ==> start < i,
            read_expressions_spec(source@) == re_loop(tv, 0, 0, 0, Seq::<ExpV>::empty()),
            re_loop(tv, 0, 0, 0, Seq::empty()) == re_loop(
                tv,
                i as int,
                nesting as int,
                start as int,
                view_exps(acc@),
            ),
        decreases toks@.len() - i,
    {
        let ghost n0 = nesting as int;
        let ghost s0 = start as int;
        let ghost a0 = view_exps(acc@);
        match &toks[i] {
            Token::LParen { .. } => {
                if nesting == 0 {
                    start = i;
                }
                nesting = nesting + 1;
            },
            Token::LBracket { .. } => {
                if nesting == 0 {
                    start = i;
                }
                nesting = nesting + 1;
            },
            Token::RParen { location } => {
                if nesting > 0 {
                    if nesting == 1 {
                        nesting = 0;
                        match parse_expression(&toks, start, i) {
                            Err(e) => {
                                proof {
                                    assert(re_loop(tv, i as int, n0, s0, a0) == Err::<
                                        Seq<ExpV>,
                                        ParseError,
                                    >(e));
                                }
                                return Err(e);
                            },
                            Ok(Some(x)) => {
                                let ghost avec0 = acc@;
                                let ghost xv = x@;
                                acc.push(x);
                                proof {
                                    lemma_view_exps(avec0);
                                    lemma_view_exps(acc@);
                                    assert(view_exps(acc@) =~= re_push(
                                        view_exps(avec0),
                                        Some(xv),
                                    ));
                                }
                            },
                            Ok(None) => {
                            },
                        }
                    } else {
                        nesting = nesting - 1;
                    }
                } else {
                    let e = ParseError::new(ParseErrorKind::UnexpectedClosingDelimiter, *location);
                    proof {
                        assert(re_loop(tv, i as int, n0, s0, a0) == Err::<Seq<ExpV>, ParseError>(
                            e,
                        ));
                    }
                    return Err(e);
                }
            },
            Token::RBracket { location } => {
                if nesting > 0 {
                    if nesting == 1 {
                        nesting = 0;
                        match parse_expression(&toks, start, i) {
                            Err(e) => {
                                proof {
                                    assert(re_loop(tv, i as int, n0, s0, a0) == Err::<
                                        Seq<ExpV>,
                                        ParseError,
                                    >(e));
                                }
                                return Err(e);
                            },
                            Ok(Some(x)) => {
                                let ghost avec0 = acc@;
                                let ghost xv = x@;
                                acc.push(x);
                                proof {
                                    lemma_view_exps(avec0);
                                    lemma_view_exps(acc@);
                                    assert(view_exps(acc@) =~= re_push(
                                        view_exps(avec0),
                                        Some(xv),
                                    ));
                                }
                            },
                            Ok(None) => {
                            },
                        }
                    } else {
                        nesting = nesting - 1;
                    }
                } else {
                    let e = ParseError::new(ParseErrorKind::UnexpectedClosingDelimiter, *location);
                    proof {
                        assert(re_loop(tv, i as int, n0, s0, a0) == Err::<Seq<ExpV>, ParseError>(
                            e,
                        ));
                    }
                    return Err(e);
                }
            },
            _ => {
                if nesting == 0 {
                    match process_atom(&toks[i]) {
                        Some(atom) => {
                            let ghost avec0 = acc@;
                            let ghost av = atom@;
                            acc.push(atom);
                            proof {
                                lemma_view_exps(avec0);
                                lemma_view_exps(acc@);
                                assert(view_exps(acc@) =~= re_push(view_exps(avec0), Some(av)));
                                assert(re_push(view_exps(avec0), Some(av)) =~= re_push(
                                    view_exps(avec0),
                                    process_atom_spec(tv[i as int]),
                                ));
                            }
                        },
                        None => {
                        },
                    }
                }
            },
        }
        i = i + 1;
        proof {
            assert(re_loop(tv, 0, 0, 0, Seq::empty()) == re_loop(
                tv,
                i as int,
                nesting as int,
                start as int,
                view_exps(acc@),
            ));
        }
    }
    if nesting > 0 {
        let e = ParseError::new(
            ParseErrorKind::UnterminatedExpression,
            toks[start].get_location(),
        );
        proof {
            assert(re_loop(tv, i as int, nesting as int, start as int, view_exps(acc@)) == Err::<
                Seq<ExpV>,
                ParseError,
            >(e));
        }
        Err(e)
    } else {
        proof {
            assert(re_loop(tv, i as int, nesting as int, start as int, view_exps(acc@)) == Ok::<
                Seq<ExpV>,
                ParseError,
            >(view_exps(acc@)));
        }
        Ok(acc)
    }
}

} // verus!

verus! {

/// The textual rendering of an expression tree: the display form that
/// re-reading reproduces.
pub open spec fn render_exp(e: ExpV) -> Seq<char>
    decreases e, 0int,
{
    match e {
        ExpV::Nil => seq!['n', 'i', 'l'],
        ExpV::Atom(s) => s,
        ExpV::List(xs) => seq!['['] + render_list_from(xs, 0) + seq![']'],
        ExpV::SExp { kind, args, kwargs } => seq!['('] + render_exp(*kind) + render_args_from(
            args,
            0,
        ) + render_kwargs_from(kwargs, 0) + seq![')'],
    }
}

/// The renderings of `xs[i..]`, joined by single spaces.
pub open spec fn render_list_from(xs: Seq<ExpV>, i: int) -> Seq<char>
    decreases xs, xs.len() - i,
{
    if i < 0 || i >= xs.len() {
        Seq::empty()
    } else if i == xs.len() - 1 {
        render_exp(xs[i])
    } else {
        render_exp(xs[i]) + seq![' '] + render_list_from(xs, i + 1)
    }
}

/// The renderings of positional operands, each preceded by a space.
pub open spec fn render_args_from(xs: Seq<ExpV>, i: int) -> Seq<char>
    decreases xs, xs.len() - i,
{
    if i < 0 || i >= xs.len() {
        Seq::empty()
    } else {
        seq![' '] + render_exp(xs[i]) + render_args_from(xs, i + 1)
    }
}

/// The renderings of keyword operands, each as ` :name value`.
pub open spec fn render_kwargs_from(ps: Seq<(Seq<char>, ExpV)>, i: int) -> Seq<char>
    decreases ps, ps.len() - i,
{
    if i < 0 || i >= ps.len() {
        Seq::empty()
    } else {
        seq![' ', ':'] + ps[i].0 + seq![' '] + render_exp(ps[i].1) + render_kwargs_from(ps, i + 1)
    }
}

impl Exp {
    /// Renders the tree to text.
    pub fn render(&self) -> (r: String)
        ensures
            r@ == render_exp(self@),
        decreases self,
    {
        match self {
            Exp::Nil => {
                let r = String::from_str("nil");
                proof {
                    reveal_strlit("nil");
                    assert(r@ =~= render_exp(self@));
                }
                r
            },
            Exp::Atom(s) => s.clone(),
            Exp::List(xs) => {
                proof {
                    lemma_view_exps(xs@);
                }
                let ghost vxs = view_exps(xs@);
                let mut out = String::from_str("[");
                proof {
                    reveal_strlit("[");
                }
                let mut i: usize = 0;
                while i < xs.len()
                    invariant
                        i <= xs@.len(),
                        *self == Exp::List(*xs),
                        vxs == view_exps(xs@),
                        vxs.len() == xs@.len(),
                        forall|j: int| 0 <= j < xs@.len() ==> view_exps(xs@)[j] == xs@[j]@,
                        out@ + render_list_from(vxs, i as int) == seq!['['] + render_list_from(
                            vxs,
                            0,
                        ),
                    decreases xs@.len() - i,
                {
                    proof {
                        assert(decreases_to!(*self => self->List_0));
                        assert(self->List_0 == *xs);
                        assert(decreases_to!(*xs => xs@));
                        assert(decreases_to!(xs@ => xs@[i as int]));
                        assert(decreases_to!(*self => xs@[i as int]));
                    }
                    let piece = xs[i].render();
                    out.append(piece.as_str());
                    if i + 1 < xs.len() {
                        out.push(' ');
                    }
                    proof {
                        assert(out@ + render_list_from(vxs, i as int + 1) =~= seq!['[']
                            + render_list_from(vxs, 0));
                    }
                    i = i + 1;
                }
                out.push(']');
                proof {
                    assert(out@ =~= render_exp(self@));
                }
                out
            },
            Exp::SExp { kind, args, kwargs } => {
                proof {
                    lemma_view_exps(args@);
                    lemma_view_kwargs(kwargs@);
                }
                let ghost vargs = view_exps(args@);
                let ghost vkw = view_kwargs(kwargs@);
                let mut out = String::from_str("(");
                proof {
                    reveal_strlit("(");
                }
                let piece = (**kind).render();
                out.append(piece.as_str());
                let mut i: usize = 0;
                while i < args.len()
                    invariant
                        i <= args@.len(),
                        *self == (Exp::SExp { kind: *kind, args: *args, kwargs: *kwargs }),
                        vargs == view_exps(args@),
                        vargs.len() == args@.len(),
                        forall|j: int| 0 <= j < args@.len() ==> view_exps(args@)[j] == args@[j]@,
                        out@ + render_args_from(vargs, i as int) == seq!['('] + render_exp(
                            (*kind)@,
                        ) + render_args_from(vargs, 0),
                    decreases args@.len() - i,
                {
                    proof {
                        assert(decreases_to!(*self => self->SExp_args));
                        assert(self->SExp_args == *args);
                        assert(decreases_to!(*args => args@));
                        assert(decreases_to!(args@ => args@[i as int]));
                        assert(decreases_to!(*self => args@[i as int]));
                    }
                    out.push(' ');
                    let piece2 = args[i].render();
                    out.append(piece2.as_str());
                    proof {
                        assert(out@ + render_args_from(vargs, i as int + 1) =~= seq!['(']
                            + render_exp((*kind)@) + render_args_from(vargs, 0));
                    }
                    i = i + 1;
                }
                let mut j: usize = 0;
                while j < kwargs.len()
                    invariant
                        j <= kwargs@.len(),
                        *self == (Exp::SExp { kind: *kind, args: *args, kwargs: *kwargs }),
                        vkw == view_kwargs(kwargs@),
                        vkw.len() == kwargs@.len(),
                        forall|t: int|
                            0 <= t < kwargs@.len() ==> view_kwargs(kwargs@)[t] == (
                                kwargs@[t].0@,
                                kwargs@[t].1@,
                            ),
                        out@ + render_kwargs_from(vkw, j as int) == seq!['('] + render_exp(
                            (*kind)@,
                        ) + render_args_from(view_exps(args@), 0) + render_kwargs_from(vkw, 0),
                    decreases kwargs@.len() - j,
                {
                    proof {
                        assert(decreases_to!(*self => self->SExp_kwargs));
                        assert(self->SExp_kwargs == *kwargs);
                        assert(decreases_to!(*kwargs => kwargs@));
                        assert(decreases_to!(kwargs@ => kwargs@[j as int]));
                        assert(decreases_to!(kwargs@[j as int] => kwargs@[j as int].1));
                        assert(decreases_to!(*self => kwargs@[j as int].1));
                    }
                    out.push(' ');
                    out.push(':');
                    out.append(kwargs[j].0.as_str());
                    out.push(' ');
                    let piece3 = kwargs[j].1.render();
                    out.append(piece3.as_str());
                    proof {
                        assert(out@ + render_kwargs_from(vkw, j as int + 1) =~= seq!['(']
                            + render_exp((*kind)@) + render_args_from(view_exps(args@), 0)
                            + render_kwargs_from(vkw, 0));
                    }
                    j = j + 1;
                }
                out.push(')');
                proof {
                    assert(out@ =~= render_exp(self@));
                }
                out
            },
        }
    }
}

} // verus!

verus! {

/// A character that the tokenizer keeps inside one symbol: anything
/// but a delimiter, a quote, a comment mark or whitespace.
pub open spec fn plain_atom_char(c: char) -> bool {
    c != '(' && c != ')' && c != '[' && c != ']' && c != '"' && c != ';' && c != ' ' && c != '\n'
}

/// An atom text that renders as itself and tokenizes back into one
/// symbol token.
pub open spec fn plain_atom_text(s: Seq<char>) -> bool {
    s.len() > 0 && (forall|k: int| 0 <= k < s.len() ==> plain_atom_char(#[trigger] s[k]))
}

proof fn lemma_lex_plain_atom(s: Seq<char>, i: int)
    requires
        plain_atom_text(s),
        0 <= i <= s.len(),
    ensures
        lex_fold(s, i) == (LexSt {
            mode: ParseMode::Normal,
            in_symbol: i > 0,
            cur_sym: s.subrange(0, i),
            cur_str: Seq::<char>::empty(),
            cur_com: Seq::<char>::empty(),
            line: 1,
            column: i,
            this_line: 1,
            this_column: if i == 0 {
                0int
            } else {
                1int
            },
            mark_pos: i == 0,
            toks: Seq::<TokenV>::empty(),
        }),
    decreases i,
{
    if i == 0 {
        assert(s.subrange(0, 0) =~= Seq::<char>::empty());
        assert(lex_fold(s, 0) =~~= (LexSt {
            mode: ParseMode::Normal,
            in_symbol: false,
            cur_sym: s.subrange(0, 0),
            cur_str: Seq::<char>::empty(),
            cur_com: Seq::<char>::empty(),
            line: 1,
            column: 0,
            this_line: 1,
            this_column: 0,
            mark_pos: true,
            toks: Seq::<TokenV>::empty(),
        }));
    } else {
        lemma_lex_plain_atom(s, i - 1);
        assert(plain_atom_char(s[i - 1]));
        assert(lex_fold(s, i) == lex_step(lex_fold(s, i - 1), s[i - 1]));
        assert(s.subrange(0, i) =~= s.subrange(0, i - 1).push(s[i - 1]));
        assert(lex_fold(s, i) =~~= (LexSt {
            mode: ParseMode::Normal,
            in_symbol: true,
            cur_sym: s.subrange(0, i),
            cur_str: Seq::<char>::empty(),
            cur_com: Seq::<char>::empty(),
            line: 1,
            column: i,
            this_line: 1,
            this_column: 1,
            mark_pos: false,
            toks: Seq::<TokenV>::empty(),
        }));
    }
}

proof fn lemma_reread_one_symbol(s: Seq<char>)
    requires
        plain_atom_text(s),
    ensures
        lex_spec(s) == Ok::<Seq<TokenV>, ParseError>(
            seq![TokenV::Symbol { content: s, line: 1, column: 1 }],
        ),
        read_expressions_spec(s) == Ok::<Seq<ExpV>, ParseError>(opt_seq(process_atom_spec(
            TokenV::Symbol { content: s, line: 1, column: 1 },
        ))),
{
    lemma_lex_plain_atom(s, s.len() as int);
    assert(s.subrange(0, s.len() as int) =~= s);
    let tok = TokenV::Symbol { content: s, line: 1, column: 1 };
    assert(lex_spec(s) == Ok::<Seq<TokenV>, ParseError>(
        Seq::<TokenV>::empty().push(tok),
    ));
    assert(Seq::<TokenV>::empty().push(tok) =~= seq![tok]);
    let toks = seq![tok];
    assert(re_loop(toks, 1, 0, 0, re_push(Seq::empty(), process_atom_spec(tok)))
        == Ok::<Seq<ExpV>, ParseError>(re_push(Seq::empty(), process_atom_spec(tok))));
    assert(re_loop(toks, 0, 0, 0, Seq::empty()) == Ok::<Seq<ExpV>, ParseError>(
        re_push(Seq::empty(), process_atom_spec(tok)),
    ));
    assert(re_push(Seq::empty(), process_atom_spec(tok)) =~= opt_seq(process_atom_spec(tok)));
}

/// Law, shown for the atomic expressions: rendering an atom to text
/// and re-reading the text reproduces the same tree, for any atom
/// whose name holds only symbol characters and is not the word `nil`.
/// (An atom holding a space is one input on which re-reading cannot
/// reproduce the tree, so such names are left out.)
pub proof fn lemma_render_reread_atom(s: Seq<char>)
    requires
        plain_atom_text(s),
        s != "nil"@,
    ensures
        read_expressions_spec(render_exp(ExpV::Atom(s))) == Ok::<Seq<ExpV>, ParseError>(
            seq![ExpV::Atom(s)],
        ),
{
    lemma_reread_one_symbol(s);
    let tok = TokenV::Symbol { content: s, line: 1, column: 1 };
    assert(process_atom_spec(tok) == Some(ExpV::Atom(s)));
    assert(opt_seq(process_atom_spec(tok)) =~= seq![ExpV::Atom(s)]);
}

/// Law, shown for the empty expression: rendering `Nil` to text and
/// re-reading the text reproduces `Nil`.
pub proof fn lemma_render_reread_nil()
    ensures
        read_expressions_spec(render_exp(ExpV::Nil)) == Ok::<Seq<ExpV>, ParseError>(
            seq![ExpV::Nil],
        ),
{
    let s = seq!['n', 'i', 'l'];
    assert(plain_atom_text(s)) by {
        assert(plain_atom_char(s[0]));
        assert(plain_atom_char(s[1]));
        assert(plain_atom_char(s[2]));
    }
    lemma_reread_one_symbol(s);
    let tok = TokenV::Symbol { content: s, line: 1, column: 1 };
    assert(s == "nil"@) by {
        reveal_strlit("nil");
        assert(s =~= "nil"@);
    }
    assert(process_atom_spec(tok) == Some(ExpV::Nil));
    assert(opt_seq(process_atom_spec(tok)) =~= seq![ExpV::Nil]);
}

} // verus!

verus! {

/// A name fit to stand in a flat call form: a plain atom that is not
/// the word `nil` and does not carry the keyword-argument mark.
pub open spec fn plain_name(s: Seq<char>) -> bool {
    plain_atom_text(s) && s != "nil"@ && s[0] != ':'
}

/// The atoms of a run of names.
pub open spec fn atoms_of(names: Seq<Seq<char>>, i: int) -> Seq<ExpV>
    decreases names.len() - i,
{
    if i < 0 || i >= names.len() {
        Seq::empty()
    } else {
        seq![ExpV::Atom(names[i])] + atoms_of(names, i + 1)
    }
}

proof fn lemma_atoms_of(names: Seq<Seq<char>>, i: int)
    requires
        0 <= i <= names.len(),
    ensures
        atoms_of(names, i).len() == names.len() - i,
        forall|k: int|
            i <= k < names.len() ==> atoms_of(names, i)[k - i] == ExpV::Atom(#[trigger] names[k]),
    decreases names.len() - i,
{
    if i < names.len() {
        lemma_atoms_of(names, i + 1);
        assert(atoms_of(names, i) == seq![ExpV::Atom(names[i])] + atoms_of(names, i + 1));
        assert forall|k: int| i <= k < names.len() implies atoms_of(names, i)[k - i] == ExpV::Atom(
            #[trigger] names[k],
        ) by {
            if k > i {
                assert(atoms_of(names, i)[k - i] == atoms_of(names, i + 1)[k - (i + 1)]);
            }
        }
    }
}

/// Whether a token stream is one parenthesized group of symbols with
/// the given names.
pub open spec fn flat_call_tokens(toks: Seq<TokenV>, names: Seq<Seq<char>>) -> bool {
    &&& toks.len() == names.len() + 2
    &&& toks[0] is LParen
    &&& toks[toks.len() - 1] is RParen
    &&& forall|k: int|
        0 <= k < names.len() ==> (match #[trigger] toks[k + 1] {
            TokenV::Symbol { content, .. } => content == names[k],
            _ => false,
        })
}

proof fn lemma_ns_loop_all_args(
    contents: Seq<ExpV>,
    i: int,
    args: Seq<ExpV>,
    kwargs: Seq<(Seq<char>, ExpV)>,
    tk: Seq<char>,
)
    requires
        1 <= i <= contents.len(),
        forall|k: int|
            1 <= k < contents.len() ==> (match #[trigger] contents[k] {
                ExpV::Atom(s) => plain_name(s),
                _ => false,
            }),
    ensures
        ns_loop(contents, i, args, kwargs, false, tk) == (
            args + contents.subrange(i, contents.len() as int),
            kwargs,
        ),
    decreases contents.len() - i,
{
    if i == contents.len() {
        assert(contents.subrange(i, contents.len() as int) =~= Seq::<ExpV>::empty());
        assert(args + contents.subrange(i, contents.len() as int) =~= args);
    } else {
        assert(contents[i] is Atom && plain_name(contents[i]->Atom_0));
        lemma_ns_loop_all_args(contents, i + 1, args.push(contents[i]), kwargs, tk);
        assert(args.push(contents[i]) + contents.subrange(i + 1, contents.len() as int) =~= args
            + contents.subrange(i, contents.len() as int));
    }
}

proof fn lemma_pe_symbols(
    toks: Seq<TokenV>,
    names: Seq<Seq<char>>,
    i: int,
    contents: Seq<ExpV>,
    loc: (int, int),
)
    requires
        flat_call_tokens(toks, names),
        names.len() >= 1,
        forall|k: int| 0 <= k < names.len() ==> plain_name(#[trigger] names[k]),
        1 <= i <= toks.len() - 1,
        contents == atoms_of(names, 0).subrange(0, i - 1),
    ensures
        pe_loop(toks, 0, toks.len() - 1, i, contents, true, false, loc) == Ok::<
            Option<ExpV>,
            ParseError,
        >(Some(new_sexp_spec(atoms_of(names, 0)))),
    decreases toks.len() - i,
{
    lemma_atoms_of(names, 0);
    let av = atoms_of(names, 0);
    if i == toks.len() - 1 {
        assert(toks[i] is RParen);
        assert(contents =~= av);
        assert(av.len() == names.len());
        assert(pe_loop(toks, 0, toks.len() - 1, i, contents, true, false, loc) == pe_loop(
            toks,
            0,
            toks.len() - 1,
            i + 1,
            contents,
            false,
            false,
            tok_loc(toks[i]),
        ));
        assert(contents.len() == names.len() >= 1);
    } else {
        assert(match toks[(i - 1) + 1] {
            TokenV::Symbol { content, .. } => content == names[i - 1],
            _ => false,
        });
        assert(toks[i] is Symbol && toks[i]->Symbol_content == names[i - 1]);
        assert(plain_name(names[i - 1]));
        assert(process_atom_spec(toks[i]) == Some(ExpV::Atom(names[i - 1])));
        assert(contents + opt_seq(process_atom_spec(toks[i])) =~= av.subrange(0, i));
        lemma_pe_symbols(toks, names, i + 1, av.subrange(0, i), tok_loc(toks[i]));
    }
}

} // verus!

verus! {

proof fn lemma_re_skip_symbols(toks: Seq<TokenV>, names: Seq<Seq<char>>, i: int, acc: Seq<ExpV>)
    requires
        flat_call_tokens(toks, names),
        1 <= i <= toks.len() - 1,
    ensures
        re_loop(toks, i, 1, 0, acc) == re_loop(toks, toks.len() - 1, 1, 0, acc),
    decreases toks.len() - i,
{
    if i < toks.len() - 1 {
        assert(match toks[(i - 1) + 1] {
            TokenV::Symbol { content, .. } => content == names[i - 1],
            _ => false,
        });
        assert(toks[i] is Symbol);
        lemma_re_skip_symbols(toks, names, i + 1, acc);
    }
}

/// The reader half of the round-trip law, shown for flat call forms:
/// a token stream holding one parenthesized group of symbol tokens,
/// which is the shape that rendering such a call form produces, reads
/// back as the call form over those names. Names carrying the keyword
/// mark, and the word `nil`, are left out: a keyword operand re-reads
/// into the keyword mapping, not into the positional operands.
pub proof fn lemma_read_flat_call_tokens(toks: Seq<TokenV>, names: Seq<Seq<char>>)
    requires
        flat_call_tokens(toks, names),
        names.len() >= 1,
        forall|k: int| 0 <= k < names.len() ==> plain_name(#[trigger] names[k]),
    ensures
        re_loop(toks, 0, 0, 0, Seq::empty()) == Ok::<Seq<ExpV>, ParseError>(
            seq![
                ExpV::SExp {
                    kind: Box::new(ExpV::Atom(names[0])),
                    args: atoms_of(names, 1),
                    kwargs: Seq::empty(),
                },
            ],
        ),
{
    lemma_atoms_of(names, 0);
    lemma_atoms_of(names, 1);
    let av = atoms_of(names, 0);
    let last = toks.len() - 1;

    // The group parses to the call form.
    assert(pe_loop(toks, 0, last, 0, Seq::empty(), false, false, (0int, 0int)) == pe_loop(
        toks,
        0,
        last,
        1,
        Seq::empty(),
        true,
        false,
        tok_loc(toks[0]),
    ));
    assert(Seq::<ExpV>::empty() =~= av.subrange(0, 0));
    lemma_pe_symbols(toks, names, 1, av.subrange(0, 0), tok_loc(toks[0]));
    assert(pe_spec(toks, 0, last) == Ok::<Option<ExpV>, ParseError>(Some(new_sexp_spec(av))));

    // The call form is the operator with positional operands alone.
    assert forall|k: int| 1 <= k < av.len() implies (match #[trigger] av[k] {
        ExpV::Atom(s) => plain_name(s),
        _ => false,
    }) by {
        assert(av[k] == ExpV::Atom(names[k]));
    }
    lemma_ns_loop_all_args(av, 1, Seq::empty(), Seq::empty(), Seq::empty());
    assert(Seq::<ExpV>::empty() + av.subrange(1, av.len() as int) =~= av.subrange(
        1,
        av.len() as int,
    ));
    assert(av.subrange(1, av.len() as int) =~= atoms_of(names, 1));
    let sexp = ExpV::SExp {
        kind: Box::new(ExpV::Atom(names[0])),
        args: atoms_of(names, 1),
        kwargs: Seq::empty(),
    };
    assert(new_sexp_spec(av) =~~= sexp);

    // The whole-stream walk finds exactly that one form.
    assert(re_loop(toks, 0, 0, 0, Seq::empty()) == re_loop(toks, 1, 1, 0, Seq::empty()));
    lemma_re_skip_symbols(toks, names, 1, Seq::empty());
    assert(toks[last] is RParen);
    assert(re_loop(toks, last, 1, 0, Seq::empty()) == re_loop(
        toks,
        last + 1,
        0,
        0,
        re_push(Seq::empty(), Some(new_sexp_spec(av))),
    ));
    assert(re_push(Seq::empty(), Some(new_sexp_spec(av))) =~= seq![sexp]);
    assert(re_loop(toks, last + 1, 0, 0, seq![sexp]) == Ok::<Seq<ExpV>, ParseError>(seq![sexp]));
}

} // verus!

verus! {

/// The tokenizer's state after running a whole piece of text from a
/// given state.
pub open spec fn lex_text(st: LexSt, t: Seq<char>) -> LexSt
    decreases t.len(),
{
    if t.len() == 0 {
        st
    } else {
        lex_text(lex_step(st, t[0]), t.drop_first())
    }
}

proof fn lemma_lex_text_concat(st: LexSt, a: Seq<char>, b: Seq<char>)
    ensures
        lex_text(st, a + b) == lex_text(lex_text(st, a), b),
    decreases a.len(),
{
    if a.len() == 0 {
        assert(a + b =~= b);
    } else {
        assert((a + b)[0] == a[0]);
        assert((a + b).drop_first() =~= a.drop_first() + b);
        lemma_lex_text_concat(lex_step(st, a[0]), a.drop_first(), b);
    }
}

proof fn lemma_lex_fold_is_text(s: Seq<char>, i: int)
    requires
        0 <= i <= s.len(),
    ensures
        lex_fold(s, i) == lex_text(lex_init(), s.subrange(0, i)),
    decreases i,
{
    if i == 0 {
        assert(s.subrange(0, 0) =~= Seq::<char>::empty());
    } else {
        lemma_lex_fold_is_text(s, i - 1);
        assert(s.subrange(0, i) =~= s.subrange(0, i - 1) + seq![s[i - 1]]);
        lemma_lex_text_concat(lex_init(), s.subrange(0, i - 1), seq![s[i - 1]]);
        assert(seq![s[i - 1]].drop_first() =~= Seq::<char>::empty());
        assert(lex_text(lex_step(lex_fold(s, i - 1), s[i - 1]), Seq::<char>::empty())
            == lex_step(lex_fold(s, i - 1), s[i - 1]));
        assert(lex_text(lex_fold(s, i - 1), seq![s[i - 1]]) == lex_step(
            lex_fold(s, i - 1),
            s[i - 1],
        ));
    }
}

proof fn lemma_lex_text_atom(st: LexSt, t: Seq<char>)
    requires
        st.mode is Normal,
        t.len() > 0,
        forall|k: int| 0 <= k < t.len() ==> plain_atom_char(#[trigger] t[k]),
    ensures
        lex_text(st, t) == (LexSt {
            mode: ParseMode::Normal,
            in_symbol: true,
            cur_sym: st.cur_sym + t,
            cur_str: st.cur_str,
            cur_com: st.cur_com,
            line: st.line,
            column: st.column + t.len(),
            this_line: if st.mark_pos {
                st.line
            } else {
                st.this_line
            },
            this_column: if st.mark_pos {
                st.column + 1
            } else {
                st.this_column
            },
            mark_pos: false,
            toks: st.toks,
        }),
    decreases t.len(),
{
    assert(plain_atom_char(t[0]));
    let st1 = lex_step(st, t[0]);
    assert(st1 =~~= (LexSt {
        mode: ParseMode::Normal,
        in_symbol: true,
        cur_sym: st.cur_sym.push(t[0]),
        cur_str: st.cur_str,
        cur_com: st.cur_com,
        line: st.line,
        column: st.column + 1,
        this_line: if st.mark_pos {
            st.line
        } else {
            st.this_line
        },
        this_column: if st.mark_pos {
            st.column + 1
        } else {
            st.this_column
        },
        mark_pos: false,
        toks: st.toks,
    }));
    if t.len() == 1 {
        assert(st.cur_sym.push(t[0]) =~= st.cur_sym + t);
        assert(lex_text(st, t) == st1);
    } else {
        assert(forall|k: int|
            0 <= k < t.drop_first().len() ==> plain_atom_char(#[trigger] t.drop_first()[k]));
        lemma_lex_text_atom(st1, t.drop_first());
        assert(st.cur_sym.push(t[0]) + t.drop_first() =~= st.cur_sym + t);
        assert(lex_text(st, t) =~~= (LexSt {
            mode: ParseMode::Normal,
            in_symbol: true,
            cur_sym: st.cur_sym + t,
            cur_str: st.cur_str,
            cur_com: st.cur_com,
            line: st.line,
            column: st.column + t.len(),
            this_line: if st.mark_pos {
                st.line
            } else {
                st.this_line
            },
            this_column: if st.mark_pos {
                st.column + 1
            } else {
                st.this_column
            },
            mark_pos: false,
            toks: st.toks,
        }));
    }
}

} // verus!

verus! {

/// The rendered text of the operands `names[k..]`: each name preceded
/// by one space.
pub open spec fn args_text(names: Seq<Seq<char>>, k: int) -> Seq<char>
    decreases names.len() - k,
{
    if k < 0 || k >= names.len() {
        Seq::empty()
    } else {
        seq![' '] + names[k] + args_text(names, k + 1)
    }
}

proof fn lemma_args_text_is_render(names: Seq<Seq<char>>, j: int)
    requires
        0 <= j <= names.len() - 1 || (names.len() == 0 && j == 0),
    ensures
        render_args_from(atoms_of(names, 1), j) == args_text(names, j + 1),
    decreases names.len() - j,
{
    if names.len() == 0 {
        assert(render_args_from(atoms_of(names, 1), j) =~= args_text(names, j + 1));
        return ;
    }
    lemma_atoms_of(names, 1);
    let atoms = atoms_of(names, 1);
    if j >= atoms.len() {
        assert(render_args_from(atoms, j) =~= args_text(names, j + 1));
    } else {
        assert(atoms[j] == ExpV::Atom(names[j + 1]));
        assert(render_exp(atoms[j]) == names[j + 1]);
        lemma_args_text_is_render(names, j + 1);
        assert(render_args_from(atoms, j) =~= args_text(names, j + 1));
    }
}

proof fn lemma_lex_args(st: LexSt, names: Seq<Seq<char>>, k: int)
    requires
        st.mode is Normal,
        st.in_symbol,
        !st.mark_pos,
        1 <= k <= names.len(),
        st.cur_sym == names[k - 1],
        forall|m: int| 0 <= m < names.len() ==> plain_name(#[trigger] names[m]),
    ensures
        ({
            let st2 = lex_text(st, args_text(names, k));
            &&& st2.mode is Normal
            &&& st2.in_symbol
            &&& !st2.mark_pos
            &&& st2.cur_sym == names[names.len() - 1]
            &&& st2.toks.len() == st.toks.len() + (names.len() - k)
            &&& forall|m: int| 0 <= m < st.toks.len() ==> st2.toks[m] == #[trigger] st.toks[m]
            &&& forall|m: int|
                0 <= m < names.len() - k ==> (match #[trigger] st2.toks[st.toks.len() + m] {
                    TokenV::Symbol { content, .. } => content == names[k - 1 + m],
                    _ => false,
                })
        }),
    decreases names.len() - k,
{
    if k == names.len() {
        assert(args_text(names, k) =~= Seq::<char>::empty());
        assert(lex_text(st, args_text(names, k)) == st);
    } else {
        assert(plain_name(names[k - 1]));
        assert(plain_name(names[k]));
        let flushed = TokenV::Symbol {
            content: st.cur_sym,
            line: st.this_line,
            column: st.this_column,
        };
        let st_sp = lex_step(st, ' ');
        assert(st_sp =~~= (LexSt {
            in_symbol: false,
            cur_sym: Seq::empty(),
            column: st.column + 1,
            mark_pos: true,
            toks: st.toks.push(flushed),
            ..st
        }));
        lemma_lex_text_atom(st_sp, names[k]);
        let st_at = lex_text(st_sp, names[k]);
        assert(st_at.cur_sym =~= names[k]);
        lemma_lex_args(st_at, names, k + 1);
        let st2 = lex_text(st_at, args_text(names, k + 1));

        // Stitch the three runs together.
        assert(args_text(names, k) == seq![' '] + names[k] + args_text(names, k + 1));
        lemma_lex_text_concat(st, seq![' '] + names[k], args_text(names, k + 1));
        lemma_lex_text_concat(st, seq![' '], names[k]);
        assert((seq![' '] + names[k]) + args_text(names, k + 1) =~= args_text(names, k));
        assert(seq![' '].drop_first() =~= Seq::<char>::empty());
        assert(lex_text(lex_step(st, ' '), Seq::<char>::empty()) == lex_step(st, ' '));
        assert(lex_text(st, seq![' ']) == st_sp);
        assert(lex_text(st, args_text(names, k)) == st2);

        // The token stream grew by the flushed symbol, then the rest.
        assert(st_at.toks == st.toks.push(flushed));
        assert forall|m: int| 0 <= m < st.toks.len() implies lex_text(
            st,
            args_text(names, k),
        ).toks[m] == #[trigger] st.toks[m] by {
            assert(st2.toks[m] == st_at.toks[m]);
            assert(st_at.toks[m] == st.toks[m]);
        }
        assert forall|m: int| 0 <= m < names.len() - k implies (match #[trigger] lex_text(
            st,
            args_text(names, k),
        ).toks[st.toks.len() + m] {
            TokenV::Symbol { content, .. } => content == names[k - 1 + m],
            _ => false,
        }) by {
            if m == 0 {
                assert(st2.toks[st.toks.len() as int] == st_at.toks[st.toks.len() as int]);
                assert(st_at.toks[st.toks.len() as int] == flushed);
            } else {
                assert(st2.toks[st_at.toks.len() + (m - 1)] == st2.toks[st.toks.len() + m]);
            }
        }
    }
}

} // verus!

verus! {

/// A call form of plain atoms: the shape `(f a b ...)`.
pub open spec fn flat_call(names: Seq<Seq<char>>) -> ExpV {
    ExpV::SExp {
        kind: Box::new(ExpV::Atom(names[0])),
        args: atoms_of(names, 1),
        kwargs: Seq::empty(),
    }
}

/// Law, shown for flat call forms: rendering a call form of plain
/// atoms to text and re-reading the text reproduces the same tree.
/// Names carrying the keyword mark are left out, since a keyword
/// operand re-reads into the keyword mapping rather than the
/// positional operands; so are names with delimiter characters, such
/// as a name holding a space, on which re-reading cannot reproduce
/// the tree.
pub proof fn lemma_render_reread_flat_call(names: Seq<Seq<char>>)
    requires
        names.len() >= 1,
        forall|m: int| 0 <= m < names.len() ==> plain_name(#[trigger] names[m]),
    ensures
        read_expressions_spec(render_exp(flat_call(names))) == Ok::<Seq<ExpV>, ParseError>(
            seq![flat_call(names)],
        ),
{
    let sexp = flat_call(names);
    let text = render_exp(sexp);
    let a = seq!['('];
    let b = names[0];
    let c = args_text(names, 1);
    let d = seq![')'];

    // The rendered text is the opener, the operator, the spaced
    // operands, and the closer.
    lemma_args_text_is_render(names, 0);
    assert(render_kwargs_from(Seq::empty(), 0) =~= Seq::<char>::empty());
    assert(render_exp(ExpV::Atom(names[0])) == names[0]);
    assert(text == seq!['('] + render_exp(ExpV::Atom(names[0])) + render_args_from(
        atoms_of(names, 1),
        0,
    ) + render_kwargs_from(Seq::empty(), 0) + seq![')']);
    assert(text =~= ((a + b) + c) + d);

    // Tokenizing that text: the opener.
    let st_a = lex_text(lex_init(), a);
    assert(a.drop_first() =~= Seq::<char>::empty());
    assert(lex_text(lex_step(lex_init(), '('), Seq::<char>::empty()) == lex_step(
        lex_init(),
        '(',
    ));
    assert(st_a =~~= (LexSt {
        mode: ParseMode::Normal,
        in_symbol: false,
        cur_sym: Seq::<char>::empty(),
        cur_str: Seq::<char>::empty(),
        cur_com: Seq::<char>::empty(),
        line: 1,
        column: 1,
        this_line: 1,
        this_column: 1,
        mark_pos: true,
        toks: Seq::<TokenV>::empty().push(TokenV::LParen { line: 1, column: 1 }),
    }));

    // The operator accumulates as one pending symbol.
    assert(plain_name(names[0]));
    lemma_lex_text_atom(st_a, b);
    let st_b = lex_text(st_a, b);
    assert(st_b.cur_sym =~= names[0]);
    assert(st_b.toks.len() == 1);

    // The operands each flush the pending symbol.
    lemma_lex_args(st_b, names, 1);
    let st_c = lex_text(st_b, c);
    assert(st_c.toks.len() == 1 + (names.len() - 1));

    // The closer flushes the last symbol and ends the group.
    let flushed = TokenV::Symbol {
        content: st_c.cur_sym,
        line: st_c.this_line,
        column: st_c.this_column,
    };
    let closer = TokenV::RParen { line: st_c.line, column: st_c.column + 1 };
    let st_d = lex_text(st_c, d);
    assert(d.drop_first() =~= Seq::<char>::empty());
    assert(lex_text(lex_step(st_c, ')'), Seq::<char>::empty()) == lex_step(st_c, ')'));
    assert(plain_name(names[names.len() - 1]));
    assert(st_c.cur_sym.len() > 0);
    assert(st_d =~~= (LexSt {
        in_symbol: false,
        cur_sym: Seq::<char>::empty(),
        column: st_c.column + 1,
        this_line: st_c.this_line,
        this_column: st_c.this_column,
        mark_pos: true,
        toks: st_c.toks.push(flushed).push(closer),
        ..st_c
    }));

    // The whole run, stitched together.
    lemma_lex_text_concat(lex_init(), (a + b) + c, d);
    lemma_lex_text_concat(lex_init(), a + b, c);
    lemma_lex_text_concat(lex_init(), a, b);
    assert(lex_text(lex_init(), text) == st_d);
    lemma_lex_fold_is_text(text, text.len() as int);
    assert(text.subrange(0, text.len() as int) =~= text);
    assert(lex_spec(text) == Ok::<Seq<TokenV>, ParseError>(st_d.toks));

    // The tokens are one parenthesized group of the names' symbols.
    let toks = st_d.toks;
    assert(toks.len() == names.len() + 2);
    assert(toks[0] == st_c.toks[0]);
    assert(st_c.toks[0] == st_b.toks[0]);
    assert(toks[0] is LParen);
    assert(toks[toks.len() - 1] == closer);
    assert(st_c.cur_sym == names[names.len() - 1]);
    assert forall|k: int| 0 <= k < names.len() implies (match #[trigger] toks[k + 1] {
        TokenV::Symbol { content, .. } => content == names[k],
        _ => false,
    }) by {
        if k < names.len() - 1 {
            assert(toks[k + 1] == st_c.toks[k + 1]);
            assert(match st_c.toks[st_b.toks.len() + k] {
                TokenV::Symbol { content, .. } => content == names[1 - 1 + k],
                _ => false,
            });
        } else {
            assert(toks[k + 1] == flushed);
        }
    }
    assert(flat_call_tokens(toks, names));

    // Reading those tokens reproduces the call form.
    lemma_read_flat_call_tokens(toks, names);
}

} // verus!

verus! {

/// Whether a token stream is one bracket group of symbols with the
/// given names.
pub open spec fn flat_list_tokens(toks: Seq<TokenV>, names: Seq<Seq<char>>) -> bool {
    &&& toks.len() == names.len() + 2
    &&& toks[0] is LBracket
    &&& toks[toks.len() - 1] is RBracket
    &&& forall|k: int|
        0 <= k < names.len() ==> (match #[trigger] toks[k + 1] {
            TokenV::Symbol { content, .. } => content == names[k],
            _ => false,
        })
}

proof fn lemma_pe_symbols_list(
    toks: Seq<TokenV>,
    names: Seq<Seq<char>>,
    i: int,
    contents: Seq<ExpV>,
    loc: (int, int),
)
    requires
        flat_list_tokens(toks, names),
        forall|k: int| 0 <= k < names.len() ==> plain_name(#[trigger] names[k]),
        1 <= i <= toks.len() - 1,
        contents == atoms_of(names, 0).subrange(0, i - 1),
    ensures
        pe_loop(toks, 0, toks.len() - 1, i, contents, true, true, loc) == Ok::<
            Option<ExpV>,
            ParseError,
        >(Some(ExpV::List(atoms_of(names, 0)))),
    decreases toks.len() - i,
{
    lemma_atoms_of(names, 0);
    let av = atoms_of(names, 0);
    if i == toks.len() - 1 {
        assert(toks[i] is RBracket);
        assert(contents =~= av);
        assert(pe_loop(toks, 0, toks.len() - 1, i, contents, true, true, loc) == pe_loop(
            toks,
            0,
            toks.len() - 1,
            i + 1,
            contents,
            false,
            true,
            tok_loc(toks[i]),
        ));
    } else {
        assert(match toks[(i - 1) + 1] {
            TokenV::Symbol { content, .. } => content == names[i - 1],
            _ => false,
        });
        assert(toks[i] is Symbol && toks[i]->Symbol_content == names[i - 1]);
        assert(plain_name(names[i - 1]));
        assert(process_atom_spec(toks[i]) == Some(ExpV::Atom(names[i - 1])));
        assert(contents + opt_seq(process_atom_spec(toks[i])) =~= av.subrange(0, i));
        lemma_pe_symbols_list(toks, names, i + 1, av.subrange(0, i), tok_loc(toks[i]));
    }
}

proof fn lemma_re_skip_symbols_list(
    toks: Seq<TokenV>,
    names: Seq<Seq<char>>,
    i: int,
    acc: Seq<ExpV>,
)
    requires
        flat_list_tokens(toks, names),
        1 <= i <= toks.len() - 1,
    ensures
        re_loop(toks, i, 1, 0, acc) == re_loop(toks, toks.len() - 1, 1, 0, acc),
    decreases toks.len() - i,
{
    if i < toks.len() - 1 {
        assert(match toks[(i - 1) + 1] {
            TokenV::Symbol { content, .. } => content == names[i - 1],
            _ => false,
        });
        assert(toks[i] is Symbol);
        lemma_re_skip_symbols_list(toks, names, i + 1, acc);
    }
}

/// The reader half of the round-trip law for bracket lists: a token
/// stream holding one bracket group of symbol tokens reads back as
/// the list of those atoms.
pub proof fn lemma_read_flat_list_tokens(toks: Seq<TokenV>, names: Seq<Seq<char>>)
    requires
        flat_list_tokens(toks, names),
        forall|k: int| 0 <= k < names.len() ==> plain_name(#[trigger] names[k]),
    ensures
        re_loop(toks, 0, 0, 0, Seq::empty()) == Ok::<Seq<ExpV>, ParseError>(
            seq![ExpV::List(atoms_of(names, 0))],
        ),
{
    lemma_atoms_of(names, 0);
    let av = atoms_of(names, 0);
    let last = toks.len() - 1;
    assert(pe_loop(toks, 0, last, 0, Seq::empty(), false, false, (0int, 0int)) == pe_loop(
        toks,
        0,
        last,
        1,
        Seq::empty(),
        true,
        true,
        tok_loc(toks[0]),
    ));
    assert(Seq::<ExpV>::empty() =~= av.subrange(0, 0));
    lemma_pe_symbols_list(toks, names, 1, av.subrange(0, 0), tok_loc(toks[0]));
    assert(pe_spec(toks, 0, last) == Ok::<Option<ExpV>, ParseError>(Some(ExpV::List(av))));
    let lst = ExpV::List(av);
    assert(re_loop(toks, 0, 0, 0, Seq::empty()) == re_loop(toks, 1, 1, 0, Seq::empty()));
    lemma_re_skip_symbols_list(toks, names, 1, Seq::empty());
    assert(toks[last] is RBracket);
    assert(re_loop(toks, last, 1, 0, Seq::empty()) == re_loop(
        toks,
        last + 1,
        0,
        0,
        re_push(Seq::empty(), Some(lst)),
    ));
    assert(re_push(Seq::empty(), Some(lst)) =~= seq![lst]);
    assert(re_loop(toks, last + 1, 0, 0, seq![lst]) == Ok::<Seq<ExpV>, ParseError>(seq![lst]));
}

/// Law, shown for flat bracket lists: rendering a list of plain atoms
/// to text and re-reading the text reproduces the same tree, under
/// the same restriction on the atoms' names as for call forms.
pub proof fn lemma_render_reread_flat_list(names: Seq<Seq<char>>)
    requires
        forall|m: int| 0 <= m < names.len() ==> plain_name(#[trigger] names[m]),
    ensures
        read_expressions_spec(render_exp(ExpV::List(atoms_of(names, 0))))
            == Ok::<Seq<ExpV>, ParseError>(seq![ExpV::List(atoms_of(names, 0))]),
{
    lemma_atoms_of(names, 0);
    let av = atoms_of(names, 0);
    let lst = ExpV::List(av);
    let text = render_exp(lst);
    if names.len() == 0 {
        assert(render_list_from(av, 0) =~= Seq::<char>::empty());
        assert(text =~= seq!['[', ']']);
        lemma_lex_fold_is_text(text, text.len() as int);
        assert(text.subrange(0, text.len() as int) =~= text);
        let st_a = lex_step(lex_init(), '[');
        let opener = TokenV::LBracket { line: 1, column: 1 };
        assert(st_a.toks =~= Seq::<TokenV>::empty().push(opener));
        let st_b = lex_step(st_a, ']');
        let closer = TokenV::RBracket { line: 1, column: 2 };
        assert(st_b.toks =~= st_a.toks.push(closer));
        assert(text[0] == '[');
        assert(text.drop_first() =~= seq![']']);
        assert(seq![']'].drop_first() =~= Seq::<char>::empty());
        assert(lex_text(st_b, Seq::<char>::empty()) == st_b);
        assert(lex_text(st_a, seq![']']) == st_b);
        assert(lex_text(lex_init(), text) == lex_text(st_a, text.drop_first()));
        assert(lex_text(lex_init(), text) == st_b);
        assert(lex_spec(text) == Ok::<Seq<TokenV>, ParseError>(st_b.toks));
        let toks = st_b.toks;
        assert(flat_list_tokens(toks, names));
        lemma_read_flat_list_tokens(toks, names);
    } else {
        // The rendered text: the opener, the first atom, the spaced
        // rest, and the closer.
        let a = seq!['['];
        let b = names[0];
        let c = args_text(names, 1);
        let d = seq![']'];
        assert forall|j: int| 0 <= j < av.len() - 1 implies render_list_from(av, j) == names[j]
            + args_text(names, j + 1) by {
            lemma_render_list_is_args(names, j);
        }
        if names.len() == 1 {
            assert(render_list_from(av, 0) == render_exp(av[0]));
            assert(av[0] == ExpV::Atom(names[0]));
            assert(args_text(names, 1) =~= Seq::<char>::empty());
            assert(render_list_from(av, 0) =~= names[0] + args_text(names, 1));
        } else {
            lemma_render_list_is_args(names, 0);
        }
        assert(text =~= ((a + b) + c) + d);

        let st_a = lex_text(lex_init(), a);
        assert(a.drop_first() =~= Seq::<char>::empty());
        assert(lex_text(lex_step(lex_init(), '['), Seq::<char>::empty()) == lex_step(
            lex_init(),
            '[',
        ));
        assert(st_a =~~= (LexSt {
            mode: ParseMode::Normal,
            in_symbol: false,
            cur_sym: Seq::<char>::empty(),
            cur_str: Seq::<char>::empty(),
            cur_com: Seq::<char>::empty(),
            line: 1,
            column: 1,
            this_line: 1,
            this_column: 1,
            mark_pos: true,
            toks: Seq::<TokenV>::empty().push(TokenV::LBracket { line: 1, column: 1 }),
        }));
        assert(plain_name(names[0]));
        lemma_lex_text_atom(st_a, b);
        let st_b = lex_text(st_a, b);
        assert(st_b.cur_sym =~= names[0]);
        assert(st_b.toks.len() == 1);
        lemma_lex_args(st_b, names, 1);
        let st_c = lex_text(st_b, c);
        assert(st_c.toks.len() == 1 + (names.len() - 1));
        let flushed = TokenV::Symbol {
            content: st_c.cur_sym,
            line: st_c.this_line,
            column: st_c.this_column,
        };
        let closer = TokenV::RBracket { line: st_c.line, column: st_c.column + 1 };
        let st_d = lex_text(st_c, d);
        assert(d.drop_first() =~= Seq::<char>::empty());
        assert(lex_text(lex_step(st_c, ']'), Seq::<char>::empty()) == lex_step(st_c, ']'));
        assert(plain_name(names[names.len() - 1]));
        assert(st_c.cur_sym.len() > 0);
        assert(st_d =~~= (LexSt {
            in_symbol: false,
            cur_sym: Seq::<char>::empty(),
            column: st_c.column + 1,
            this_line: st_c.this_line,
            this_column: st_c.this_column,
            mark_pos: true,
            toks: st_c.toks.push(flushed).push(closer),
            ..st_c
        }));
        lemma_lex_text_concat(lex_init(), (a + b) + c, d);
        lemma_lex_text_concat(lex_init(), a + b, c);
        lemma_lex_text_concat(lex_init(), a, b);
        assert(lex_text(lex_init(), text) == st_d);
        lemma_lex_fold_is_text(text, text.len() as int);
        assert(text.subrange(0, text.len() as int) =~= text);
        assert(lex_spec(text) == Ok::<Seq<TokenV>, ParseError>(st_d.toks));

        let toks = st_d.toks;
        assert(toks.len() == names.len() + 2);
        assert(toks[0] == st_c.toks[0]);
        assert(st_c.toks[0] == st_b.toks[0]);
        assert(toks[0] is LBracket);
        assert(toks[toks.len() - 1] == closer);
        assert(st_c.cur_sym == names[names.len() - 1]);
        assert forall|k: int| 0 <= k < names.len() implies (match #[trigger] toks[k + 1] {
            TokenV::Symbol { content, .. } => content == names[k],
            _ => false,
        }) by {
            if k < names.len() - 1 {
                assert(toks[k + 1] == st_c.toks[k + 1]);
                assert(match st_c.toks[st_b.toks.len() + k] {
                    TokenV::Symbol { content, .. } => content == names[1 - 1 + k],
                    _ => false,
                });
            } else {
                assert(toks[k + 1] == flushed);
            }
        }
        assert(flat_list_tokens(toks, names));
        lemma_read_flat_list_tokens(toks, names);
    }
}

proof fn lemma_render_list_is_args(names: Seq<Seq<char>>, j: int)
    requires
        names.len() >= 1,
        0 <= j <= names.len() - 1,
    ensures
        render_list_from(atoms_of(names, 0), j) == names[j] + args_text(names, j + 1),
    decreases names.len() - j,
{
    lemma_atoms_of(names, 0);
    let av = atoms_of(names, 0);
    assert(av[j] == ExpV::Atom(names[j]));
    assert(render_exp(av[j]) == names[j]);
    if j == names.len() - 1 {
        assert(args_text(names, j + 1) =~= Seq::<char>::empty());
        assert(render_list_from(av, j) =~= names[j] + args_text(names, j + 1));
    } else {
        lemma_render_list_is_args(names, j + 1);
        assert(render_list_from(av, j) == render_exp(av[j]) + seq![' '] + render_list_from(
            av,
            j + 1,
        ));
        assert(render_list_from(av, j) =~= names[j] + args_text(names, j + 1));
    }
}

} // verus!
