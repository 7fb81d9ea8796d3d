//! The evaluator-facing reader: a tokenizer that expands the brace,
//! bracket and angle-bracket sugar at the character level, splits the
//! result into words, and a recursive builder that turns the token
//! stream into a runtime expression tree.

use vstd::prelude::*;
use crate::text::{to_chars, from_chars, parse_i64, parse_int_spec};
use crate::exp::{LoomExp, ValV, view_items};

verus! {

/// A failure of this reader. String literals are the tokenizer's only
/// failure mode; the tree builder reports unexpected or missing
/// delimiters and an empty root.
#[derive(Debug, Clone, Copy, PartialEq, Eq, Structural)]
pub enum ParseError {
    UnfinishedString,
    UnexpectedRParen,
    ImproperRoot,
    UnknownType,
    UnknownSymbol,
    WrongArgument,
    Unknown,
}

/// A token of the evaluator's reader.
#[derive(Debug)]
pub enum Token {
    LParen,
    RParen,
    Number(i64),
    Symbol(String),
    Keyword(String),
    StringToken(String),
}

/// The mathematical shape of a `Token`.
#[verifier::ext_equal]
pub enum TokenV {
    LParen,
    RParen,
    Number(int),
    Symbol(Seq<char>),
    Keyword(Seq<char>),
    StringToken(Seq<char>),
}

impl View for Token {
    type V = TokenV;

    open spec fn view(&self) -> TokenV {
        match self {
            Token::LParen => TokenV::LParen,
            Token::RParen => TokenV::RParen,
            Token::Number(n) => TokenV::Number(*n as int),
            Token::Symbol(s) => TokenV::Symbol(s@),
            Token::Keyword(s) => TokenV::Keyword(s@),
            Token::StringToken(s) => TokenV::StringToken(s@),
        }
    }
}

pub open spec fn view_tokens(s: Seq<Token>) -> Seq<TokenV>
    decreases s,
{
    if s.len() == 0 {
        Seq::empty()
    } else {
        seq![s[0]@] + view_tokens(s.drop_first())
    }
}

proof fn lemma_view_tokens(s: Seq<Token>)
    ensures
        view_tokens(s).len() == s.len(),
        forall|i: int| 0 <= i < s.len() ==> view_tokens(s)[i] == s[i]@,
    decreases s.len(),
{
    if s.len() > 0 {
        lemma_view_tokens(s.drop_first());
        assert(view_tokens(s) == seq![s[0]@] + view_tokens(s.drop_first()));
        assert forall|i: int| 0 <= i < s.len() implies view_tokens(s)[i] == s[i]@ by {
            if i > 0 {
                assert(s.drop_first()[i - 1] == s[i]);
                assert(view_tokens(s)[i] == view_tokens(s.drop_first())[i - 1]);
            } else {
                assert(view_tokens(s)[0] == s[0]@);
            }
        }
    }
}

/// The first position of `c` in `s` at or after `i`, or `s.len()`.
pub open spec fn find_char(s: Seq<char>, c: char, i: int) -> int
    decreases s.len() - i,
{
    if i < 0 || i >= s.len() {
        s.len() as int
    } else if s[i] == c {
        i
    } else {
        find_char(s, c, i + 1)
    }
}

pub proof fn lemma_find_char(s: Seq<char>, c: char, i: int)
    requires
        0 <= i <= s.len(),
    ensures
        i <= find_char(s, c, i) <= s.len(),
        find_char(s, c, i) < s.len() ==> s[find_char(s, c, i)] == c,
        forall|k: int| i <= k < find_char(s, c, i) ==> s[k] != c,
    decreases s.len() - i,
{
    if i < s.len() && s[i] != c {
        lemma_find_char(s, c, i + 1);
    }
}

fn find_char_at(v: &Vec<char>, c: char, i: usize) -> (r: usize)
    requires
        i <= v@.len(),
    ensures
        r == find_char(v@, c, i as int),
        i <= r <= v@.len(),
    decreases v@.len() - i,
{
    proof {
        lemma_find_char(v@, c, i as int);
    }
    if i == v.len() {
        v.len()
    } else if v[i] == c {
        i
    } else {
        find_char_at(v, c, i + 1)
    }
}

fn sub_chars(v: &Vec<char>, a: usize, b: usize) -> (r: Vec<char>)
    requires
        a <= b <= v@.len(),
    ensures
        r@ == v@.subrange(a as int, b as int),
{
    let mut out: Vec<char> = Vec::new();
    let mut i: usize = a;
    while i < b
        invariant
            a <= i <= b <= v@.len(),
            out@ == v@.subrange(a as int, i as int),
        decreases b - i,
    {
        out.push(v[i]);
        i = i + 1;
        proof {
            assert(out@ =~= v@.subrange(a as int, i as int));
        }
    }
    proof {
        assert(out@ =~= v@.subrange(a as int, b as int));
    }
    out
}

/// The newline-stripping pass that joins a whole script onto one line
/// before sugar expansion.
pub open spec fn strip_newlines(s: Seq<char>) -> Seq<char>
    decreases s.len(),
{
    if s.len() == 0 {
        Seq::empty()
    } else if s[0] == '\n' {
        strip_newlines(s.drop_first())
    } else {
        seq![s[0]] + strip_newlines(s.drop_first())
    }
}

/// Takes a source script and flattens its dialogue onto one line by
/// dropping line breaks.
pub fn lispify(source: String) -> (r: String)
    ensures
        r@ == strip_newlines(source@),
{
    let chars = to_chars(source.as_str());
    let mut out: Vec<char> = Vec::new();
    let mut i: usize = 0;
    proof {
        assert(chars@.subrange(0, chars@.len() as int) =~= chars@);
    }
    while i < chars.len()
        invariant
            i <= chars@.len(),
            strip_newlines(chars@) == out@ + strip_newlines(
                chars@.subrange(i as int, chars@.len() as int),
            ),
        decreases chars@.len() - i,
    {
        proof {
            let rest = chars@.subrange(i as int, chars@.len() as int);
            assert(rest.len() > 0);
            assert(rest[0] == chars@[i as int]);
            assert(rest.drop_first() =~= chars@.subrange(i + 1 as int, chars@.len() as int));
        }
        if chars[i] != '\n' {
            out.push(chars[i]);
        }
        i = i + 1;
        proof {
            assert(strip_newlines(chars@) =~= out@ + strip_newlines(
                chars@.subrange(i as int, chars@.len() as int),
            ));
        }
    }
    proof {
        assert(strip_newlines(chars@.subrange(i as int, chars@.len() as int)) =~= Seq::<
            char,
        >::empty());
        assert(strip_newlines(chars@) =~= out@);
    }
    from_chars(&out)
}

/// A character fit to stand in a dialogue speaker's name.
pub open spec fn speaker_char(c: char) -> bool {
    c != '(' && c != ')' && c != '[' && c != ']' && c != '{' && c != '}' && c != '<' && c != '>'
        && c != '"' && c != ';' && c != ' ' && c != ':' && c != '#' && c != '\n'
}

/// Whether a source line is a bare `Speaker: Text` dialogue line: a
/// nonempty run of speaker characters, a colon, a space, and nonempty
/// text.
pub open spec fn dialogue_line(line: Seq<char>) -> bool {
    let j = find_char(line, ':', 0);
    &&& 1 <= j
    &&& j + 2 < line.len()
    &&& line[j + 1] == ' '
    &&& forall|k: int| 0 <= k < j ==> speaker_char(#[trigger] line[k])
}

/// The rewriting of one source line: a dialogue line becomes a `say`
/// call with the speaker symbol and the quoted text; any other line is
/// kept as it is.
pub open spec fn rewrite_line(line: Seq<char>) -> Seq<char> {
    if dialogue_line(line) {
        let j = find_char(line, ':', 0);
        seq!['(', 's', 'a', 'y', ' '] + line.subrange(0, j) + seq![' ', '"'] + line.subrange(
            j + 2,
            line.len() as int,
        ) + seq!['"', ')']
    } else {
        line
    }
}

/// The whole-source dialogue pass, applied line by line.
pub open spec fn dialogue_spec(s: Seq<char>, i: int) -> Seq<char>
    decreases s.len() - i,
{
    if i < 0 || i >= s.len() {
        Seq::empty()
    } else {
        let j = find_char(s, '\n', i);
        let line = s.subrange(i, j);
        if j < s.len() {
            rewrite_line(line) + seq!['\n'] + dialogue_spec(
                s,
                if j + 1 > i + 1 {
                    j + 1
                } else {
                    i + 1
                },
            )
        } else {
            rewrite_line(line)
        }
    }
}

fn rewrite_one_line(line: &Vec<char>) -> (r: Vec<char>)
    ensures
        r@ == rewrite_line(line@),
{
    proof {
        lemma_find_char(line@, ':', 0);
    }
    let j = find_char_at(line, ':', 0);
    if j >= 1 && line.len() > 2 && j < line.len() - 2 && line[j + 1] == ' ' {
        let mut ok = true;
        let mut k: usize = 0;
        while k < j
            invariant
                0 <= k <= j < line@.len(),
                ok == (forall|t: int| 0 <= t < k ==> speaker_char(#[trigger] line@[t])),
            decreases j - k,
        {
            let c = line[k];
            if c == '(' || c == ')' || c == '[' || c == ']' || c == '{' || c == '}' || c == '<'
                || c == '>' || c == '"' || c == ';' || c == ' ' || c == ':' || c == '#' || c
                == '\n' {
                ok = false;
            }
            k = k + 1;
        }
        if ok {
            let mut out: Vec<char> = Vec::new();
            out.push('(');
            out.push('s');
            out.push('a');
            out.push('y');
            out.push(' ');
            let mut t: usize = 0;
            while t < j
                invariant
                    t <= j < line@.len(),
                    out@ == seq!['(', 's', 'a', 'y', ' '] + line@.subrange(0, t as int),
                decreases j - t,
            {
                out.push(line[t]);
                t = t + 1;
                proof {
                    assert(out@ =~= seq!['(', 's', 'a', 'y', ' '] + line@.subrange(0, t as int));
                }
            }
            out.push(' ');
            out.push('"');
            let mut u: usize = j + 2;
            while u < line.len()
                invariant
                    j + 2 <= u <= line@.len(),
                    out@ == seq!['(', 's', 'a', 'y', ' '] + line@.subrange(0, j as int) + seq![
                        ' ',
                        '"',
                    ] + line@.subrange(j + 2 as int, u as int),
                decreases line@.len() - u,
            {
                out.push(line[u]);
                u = u + 1;
                proof {
                    assert(out@ =~= seq!['(', 's', 'a', 'y', ' '] + line@.subrange(0, j as int)
                        + seq![' ', '"'] + line@.subrange(j + 2 as int, u as int));
                }
            }
            out.push('"');
            out.push(')');
            proof {
                assert(dialogue_line(line@));
                assert(out@ =~= rewrite_line(line@));
            }
            out
        } else {
            proof {
                assert(!dialogue_line(line@));
            }
            let r = sub_chars(line, 0, line.len());
            proof {
                assert(r@ =~= line@);
            }
            r
        }
    } else {
        proof {
            assert(!dialogue_line(line@));
        }
        let r = sub_chars(line, 0, line.len());
        proof {
            assert(r@ =~= line@);
        }
        r
    }
}

/// Rewrites each bare `Speaker: Text` line of a script into a `say`
/// call, before any other processing.
pub fn dialogue_pass(source: String) -> (r: String)
    ensures
        r@ == dialogue_spec(source@, 0),
{
    let chars = to_chars(source.as_str());
    let mut out: Vec<char> = Vec::new();
    let mut i: usize = 0;
    while i < chars.len()
        invariant
            i <= chars@.len(),
            dialogue_spec(chars@, 0) == out@ + dialogue_spec(chars@, i as int),
        decreases chars@.len() - i,
    {
        proof {
            lemma_find_char(chars@, '\n', i as int);
        }
        let j = find_char_at(&chars, '\n', i);
        let line = sub_chars(&chars, i, j);
        let piece = rewrite_one_line(&line);
        let ghost out0 = out@;
        let mut t: usize = 0;
        while t < piece.len()
            invariant
                t <= piece@.len(),
                out@ == out0 + piece@.subrange(0, t as int),
            decreases piece@.len() - t,
        {
            out.push(piece[t]);
            t = t + 1;
            proof {
                assert(out@ =~= out0 + piece@.subrange(0, t as int));
            }
        }
        proof {
            assert(out@ =~= out0 + piece@);
        }
        if j < chars.len() {
            out.push('\n');
        }
        proof {
            assert(dialogue_spec(chars@, 0) =~= out@ + dialogue_spec(
                chars@,
                if j + 1 > i + 1 {
                    j as int + 1
                } else {
                    i as int + 1
                },
            ));
        }
        i = if j < chars.len() {
            j + 1
        } else {
            chars.len()
        };
        proof {
            assert(dialogue_spec(chars@, 0) =~= out@ + dialogue_spec(chars@, i as int));
        }
    }
    proof {
        assert(dialogue_spec(chars@, 0) =~= out@);
    }
    from_chars(&out)
}

} // verus!

verus! {

/// What one source character contributes to the sugar-expanded text:
/// parens are padded with spaces, and the brace, bracket and angle
/// sugar is rewritten into `table`, `list` and `quote` call openings.
pub open spec fn sugar_of(c: char, in_string: bool) -> Seq<char> {
    if in_string {
        if c == '"' {
            seq![' ', '"', ' ']
        } else {
            seq![c]
        }
    } else {
        if c == '(' {
            seq![' ', '(', ' ']
        } else if c == ')' || c == '}' || c == ']' || c == '>' {
            seq![' ', ')', ' ']
        } else if c == '"' {
            seq![' ', '"', ' ']
        } else if c == '{' {
            seq![' ', '(', ' ', 't', 'a', 'b', 'l', 'e', ' ']
        } else if c == '[' {
            seq![' ', '(', ' ', 'l', 'i', 's', 't', ' ']
        } else if c == '<' {
            seq![' ', '(', ' ', 'q', 'u', 'o', 't', 'e', ' ']
        } else {
            seq![c]
        }
    }
}

pub open spec fn sugar_toggle(c: char, in_string: bool) -> bool {
    if c == '"' {
        !in_string
    } else {
        in_string
    }
}

/// The sugar-expanded text of `s[i..]`, scanning with the in-string
/// flag.
pub open spec fn sugar_from(s: Seq<char>, i: int, in_string: bool) -> Seq<char>
    decreases s.len() - i,
{
    if i < 0 || i >= s.len() {
        Seq::empty()
    } else {
        sugar_of(s[i], in_string) + sugar_from(s, i + 1, sugar_toggle(s[i], in_string))
    }
}

/// The token a bare word stands for: a decimal literal that fits the
/// number type becomes a number, a `#`-prefixed word a keyword, and
/// anything else a symbol.
pub open spec fn word_token(w: Seq<char>) -> TokenV {
    if parse_int_spec(w) matches Some(n) && i64::MIN <= parse_int_spec(w)->0 <= i64::MAX {
        TokenV::Number(parse_int_spec(w)->0)
    } else if w.len() > 0 && w[0] == '#' {
        TokenV::Keyword(w.subrange(1, w.len() as int))
    } else {
        TokenV::Symbol(w)
    }
}

pub open spec fn cons_tok(t: TokenV, rest: Result<Seq<TokenV>, ParseError>) -> Result<
    Seq<TokenV>,
    ParseError,
> {
    match rest {
        Ok(s) => Ok(seq![t] + s),
        Err(e) => Err(e),
    }
}

/// The tokens of the expanded text `w[i..]`: words between spaces,
/// read in expression mode or, between quote words, accumulated into
/// one string literal. An unterminated string is the only failure.
pub open spec fn tok_words(w: Seq<char>, i: int, consume: bool, lit: Seq<char>) -> Result<
    Seq<TokenV>,
    ParseError,
>
    decreases w.len() - i,
{
    if i < 0 || i >= w.len() {
        if consume {
            Err(ParseError::UnfinishedString)
        } else {
            Ok(Seq::empty())
        }
    } else {
        let j = find_char(w, ' ', i);
        let word = w.subrange(i, j);
        let jn = if j < w.len() {
            j + 1
        } else {
            w.len() as int
        };
        let next = if jn > i + 1 {
            jn
        } else {
            i + 1
        };
        if !consume {
            if word.len() == 0 {
                tok_words(w, next, false, lit)
            } else if word == seq!['('] {
                cons_tok(TokenV::LParen, tok_words(w, next, false, lit))
            } else if word == seq![')'] {
                cons_tok(TokenV::RParen, tok_words(w, next, false, lit))
            } else if word == seq!['"'] {
                tok_words(w, next, true, lit)
            } else {
                cons_tok(word_token(word), tok_words(w, next, false, lit))
            }
        } else {
            if word == seq!['"'] {
                cons_tok(TokenV::StringToken(lit), tok_words(w, next, false, Seq::empty()))
            } else {
                tok_words(
                    w,
                    next,
                    true,
                    if lit.len() == 0 {
                        word
                    } else {
                        lit + seq![' '] + word
                    },
                )
            }
        }
    }
}

pub open spec fn combine_toks(
    done: Seq<TokenV>,
    rest: Result<Seq<TokenV>, ParseError>,
) -> Result<Seq<TokenV>, ParseError> {
    match rest {
        Ok(s) => Ok(done + s),
        Err(e) => Err(e),
    }
}

/// The full tokenization pipeline applied to a source text: the
/// dialogue rewrite, the newline strip, the sugar expansion, and the
/// word scan.
pub open spec fn tokenize_spec(source: Seq<char>) -> Result<Seq<TokenV>, ParseError> {
    tok_words(sugar_from(strip_newlines(dialogue_spec(source, 0)), 0, false), 0, false, Seq::empty())
}

proof fn lemma_combine_shift(done: Seq<TokenV>, t: TokenV, rest: Result<Seq<TokenV>, ParseError>)
    ensures
        combine_toks(done.push(t), rest) == combine_toks(done, cons_tok(t, rest)),
{
    match rest {
        Ok(s) => {
            assert(done.push(t) + s =~= done + (seq![t] + s));
        },
        Err(_) => {
        },
    }
}

proof fn lemma_view_tokens_push(s: Seq<Token>, t: Token)
    ensures
        view_tokens(s.push(t)) == view_tokens(s).push(t@),
{
    lemma_view_tokens(s);
    lemma_view_tokens(s.push(t));
    assert(view_tokens(s.push(t)) =~= view_tokens(s).push(t@));
}

/// Takes a source script and turns it into a stream of tokens,
/// reporting an unterminated string literal as the one failure.
pub fn tokenize(source: String) -> (r: Result<Vec<Token>, ParseError>)
    ensures
        match r {
            Ok(toks) => tokenize_spec(source@) == Ok::<Seq<TokenV>, ParseError>(view_tokens(toks@)),
            Err(e) => tokenize_spec(source@) == Err::<Seq<TokenV>, ParseError>(e),
        },
{
    let pre = dialogue_pass(source);
    let flat = lispify(pre);
    let chars = to_chars(flat.as_str());

    // Sugar expansion, one character at a time.
    let mut w: Vec<char> = Vec::new();
    let mut in_string = false;
    let mut i: usize = 0;
    let ghost full_expanded = sugar_from(chars@, 0, false);
    while i < chars.len()
        invariant
            i <= chars@.len(),
            full_expanded == w@ + sugar_from(chars@, i as int, in_string),
        decreases chars@.len() - i,
    {
        let c = chars[i];
        if in_string {
            if c == '"' {
                in_string = false;
                w.push(' ');
                w.push('"');
                w.push(' ');
            } else {
                w.push(c);
            }
        } else {
            if c == '(' {
                w.push(' ');
                w.push('(');
                w.push(' ');
            } else if c == ')' || c == '}' || c == ']' || c == '>' {
                w.push(' ');
                w.push(')');
                w.push(' ');
            } else if c == '"' {
                in_string = true;
                w.push(' ');
                w.push('"');
                w.push(' ');
            } else if c == '{' {
                w.push(' ');
                w.push('(');
                w.push(' ');
                w.push('t');
                w.push('a');
                w.push('b');
                w.push('l');
                w.push('e');
                w.push(' ');
            } else if c == '[' {
                w.push(' ');
                w.push('(');
                w.push(' ');
                w.push('l');
                w.push('i');
                w.push('s');
                w.push('t');
                w.push(' ');
            } else if c == '<' {
                w.push(' ');
                w.push('(');
                w.push(' ');
                w.push('q');
                w.push('u');
                w.push('o');
                w.push('t');
                w.push('e');
                w.push(' ');
            } else {
                w.push(c);
            }
        }
        i = i + 1;
        proof {
            assert(full_expanded =~= w@ + sugar_from(chars@, i as int, in_string));
        }
    }
    proof {
        assert(full_expanded =~= w@);
    }

    // Word scan.
    let ghost full = tok_words(w@, 0, false, Seq::empty());
    let mut toks: Vec<Token> = Vec::new();
    let mut consume = false;
    let mut lit: Vec<char> = Vec::new();
    let mut p: usize = 0;
    while p < w.len()
        invariant
            p <= w@.len(),
            full == combine_toks(view_tokens(toks@), tok_words(w@, p as int, consume, lit@)),
        decreases w@.len() - p,
    {
        proof {
            lemma_find_char(w@, ' ', p as int);
        }
        let j = find_char_at(&w, ' ', p);
        let word = sub_chars(&w, p, j);
        let next: usize = if j < w.len() {
            j + 1
        } else {
            w.len()
        };
        let ghost next_spec: int = next as int;
        if !consume {
            if word.len() == 0 {
                // Nothing between two spaces.
                proof {
                    assert(tok_words(w@, p as int, false, lit@) == tok_words(
                        w@,
                        next as int,
                        false,
                        lit@,
                    ));
                }
            } else if word.len() == 1 && word[0] == '(' {
                proof {
                    assert(word@ =~= seq!['(']);
                    lemma_view_tokens_push(toks@, Token::LParen);
                    lemma_combine_shift(
                        view_tokens(toks@),
                        TokenV::LParen,
                        tok_words(w@, next_spec, false, lit@),
                    );
                }
                toks.push(Token::LParen);
            } else if word.len() == 1 && word[0] == ')' {
                proof {
                    assert(word@ =~= seq![')']);
                    lemma_view_tokens_push(toks@, Token::RParen);
                    lemma_combine_shift(
                        view_tokens(toks@),
                        TokenV::RParen,
                        tok_words(w@, next_spec, false, lit@),
                    );
                }
                toks.push(Token::RParen);
            } else if word.len() == 1 && word[0] == '"' {
                proof {
                    assert(word@ =~= seq!['"']);
                }
                consume = true;
            } else {
                proof {
                    assert(word@ != seq!['(']);
                    assert(word@ != seq![')']);
                    assert(word@ != seq!['"']);
                }
                let tok: Token = match parse_i64(&word) {
                    Some(n) => Token::Number(n),
                    None => {
                        if word[0] == '#' {
                            Token::Keyword(from_chars(&sub_chars(&word, 1, word.len())))
                        } else {
                            Token::Symbol(from_chars(&word))
                        }
                    },
                };
                proof {
                    assert(tok_words(w@, p as int, false, lit@) == cons_tok(
                        word_token(word@),
                        tok_words(w@, next as int, false, lit@),
                    ));
                    assert(tok@ == word_token(word@));
                    lemma_view_tokens_push(toks@, tok);
                    lemma_combine_shift(
                        view_tokens(toks@),
                        tok@,
                        tok_words(w@, next_spec, false, lit@),
                    );
                }
                toks.push(tok);
            }
        } else {
            if word.len() == 1 && word[0] == '"' {
                let tok = Token::StringToken(from_chars(&lit));
                proof {
                    assert(word@ =~= seq!['"']);
                    lemma_view_tokens_push(toks@, tok);
                    lemma_combine_shift(
                        view_tokens(toks@),
                        tok@,
                        tok_words(w@, next_spec, false, Seq::empty()),
                    );
                }
                toks.push(tok);
                consume = false;
                lit = Vec::new();
            } else {
                proof {
                    assert(word@ != seq!['"']);
                }
                let ghost lit_before = lit@;
                if lit.len() > 0 {
                    lit.push(' ');
                    let mut q: usize = 0;
                    let ghost lit0 = lit@;
                    while q < word.len()
                        invariant
                            q <= word@.len(),
                            lit@ == lit0 + word@.subrange(0, q as int),
                        decreases word@.len() - q,
                    {
                        lit.push(word[q]);
                        q = q + 1;
                        proof {
                            assert(lit@ =~= lit0 + word@.subrange(0, q as int));
                        }
                    }
                    proof {
                        assert(lit@ =~= lit0 + word@);
                        assert(lit@ =~= lit_before + seq![' '] + word@);
                    }
                } else {
                    lit = word;
                }
                proof {
                    assert(lit@ == if lit_before.len() == 0 {
                        word@
                    } else {
                        lit_before + seq![' '] + word@
                    });
                    assert(full == combine_toks(
                        view_tokens(toks@),
                        tok_words(w@, next as int, true, lit@),
                    ));
                }
            }
        }
        p = next;
    }
    if consume {
        proof {
            assert(full == Err::<Seq<TokenV>, ParseError>(ParseError::UnfinishedString));
        }
        Err(ParseError::UnfinishedString)
    } else {
        proof {
            lemma_view_tokens(toks@);
            assert(view_tokens(toks@) + Seq::<TokenV>::empty() =~= view_tokens(toks@));
            assert(full == Ok::<Seq<TokenV>, ParseError>(view_tokens(toks@)));
        }
        Ok(toks)
    }
}

} // verus!

verus! {

/// The position of the `RParen` that closes an open group: scanning
/// from `i` at nesting `depth`, or `None` when the group never closes.
pub open spec fn find_close(toks: Seq<TokenV>, i: int, depth: int) -> Option<int>
    decreases toks.len() - i,
{
    if i < 0 || i >= toks.len() {
        None
    } else {
        match toks[i] {
            TokenV::LParen => find_close(toks, i + 1, depth + 1),
            TokenV::RParen => if depth == 1 {
                Some(i)
            } else {
                find_close(toks, i + 1, depth - 1)
            },
            _ => find_close(toks, i + 1, depth),
        }
    }
}

pub proof fn lemma_find_close(toks: Seq<TokenV>, i: int, depth: int)
    requires
        0 <= i <= toks.len(),
    ensures
        match find_close(toks, i, depth) {
            Some(j) => i <= j < toks.len(),
            None => true,
        },
    decreases toks.len() - i,
{
    if i < toks.len() {
        match toks[i] {
            TokenV::LParen => lemma_find_close(toks, i + 1, depth + 1),
            TokenV::RParen => if depth != 1 {
                lemma_find_close(toks, i + 1, depth - 1)
            },
            _ => lemma_find_close(toks, i + 1, depth),
        }
    }
}

/// The symbols of a dotted name, split on every dot.
pub open spec fn dot_parts(s: Seq<char>, i: int) -> Seq<ValV>
    decreases s.len() - i + 1,
{
    if i < 0 || i > s.len() {
        Seq::empty()
    } else {
        let j = find_char(s, '.', i);
        if j < s.len() {
            seq![ValV::Symbol(s.subrange(i, j))] + dot_parts(
                s,
                if j + 1 > i + 1 {
                    j + 1
                } else {
                    i + 1
                },
            )
        } else {
            seq![ValV::Symbol(s.subrange(i, s.len() as int))]
        }
    }
}

/// What a symbol token reads as: a name with a field-access dot
/// becomes a `get` call over the dot-separated parts; any other name
/// is a plain symbol.
pub open spec fn symbol_exp(s: Seq<char>) -> ValV {
    if find_char(s, '.', 0) < s.len() {
        ValV::List(seq![ValV::Symbol(seq!['g', 'e', 't'])] + dot_parts(s, 0))
    } else {
        ValV::Symbol(s)
    }
}

pub open spec fn cons_val(v: ValV, rest: Result<Seq<ValV>, ParseError>) -> Result<
    Seq<ValV>,
    ParseError,
> {
    match rest {
        Ok(s) => Ok(seq![v] + s),
        Err(e) => Err(e),
    }
}

pub open spec fn combine_vals(done: Seq<ValV>, rest: Result<Seq<ValV>, ParseError>) -> Result<
    Seq<ValV>,
    ParseError,
> {
    match rest {
        Ok(s) => Ok(done + s),
        Err(e) => Err(e),
    }
}

/// The expressions read from the token stream `toks[i..]`: atoms read
/// as themselves, a parenthesized group reads as the list of its
/// contents, a stray closing paren is an error, and a group that never
/// closes is an error.
pub open spec fn t2e_items(toks: Seq<TokenV>, i: int) -> Result<Seq<ValV>, ParseError>
    decreases toks, toks.len() - i + 1,
{
    if i < 0 || i >= toks.len() {
        Ok(Seq::empty())
    } else {
        match toks[i] {
            TokenV::LParen => match find_close(toks, i + 1, 1) {
                None => Err(ParseError::Unknown),
                Some(j) => {
                    let j2 = if j < i + 1 {
                        i + 1
                    } else if j > toks.len() {
                        toks.len() as int
                    } else {
                        j
                    };
                    let sub = toks.subrange(i + 1, j2);
                    match t2e_items(sub, 0) {
                        Err(e) => Err(e),
                        Ok(items) => cons_val(
                            ValV::List(items),
                            t2e_items(
                                toks,
                                if j2 + 1 > i + 1 {
                                    j2 + 1
                                } else {
                                    i + 1
                                },
                            ),
                        ),
                    }
                },
            },
            TokenV::RParen => Err(ParseError::UnexpectedRParen),
            TokenV::Symbol(s) => cons_val(symbol_exp(s), t2e_items(toks, i + 1)),
            TokenV::Keyword(n) => cons_val(ValV::Keyword(n), t2e_items(toks, i + 1)),
            TokenV::Number(n) => cons_val(ValV::Number(n), t2e_items(toks, i + 1)),
            TokenV::StringToken(s) => cons_val(ValV::FString(s), t2e_items(toks, i + 1)),
        }
    }
}

/// Reading a whole token stream: as a list of top-level forms, or as
/// the first form alone, which an empty stream cannot supply.
pub open spec fn t2e_spec(toks: Seq<TokenV>, is_list: bool) -> Result<ValV, ParseError> {
    match t2e_items(toks, 0) {
        Err(e) => Err(e),
        Ok(items) => if is_list {
            Ok(ValV::List(items))
        } else if items.len() == 0 {
            Err(ParseError::ImproperRoot)
        } else {
            Ok(items[0])
        },
    }
}

impl Token {
    fn duplicate(&self) -> (r: Token)
        ensures
            r@ == self@,
    {
        match self {
            Token::LParen => Token::LParen,
            Token::RParen => Token::RParen,
            Token::Number(n) => Token::Number(*n),
            Token::Symbol(s) => Token::Symbol(s.clone()),
            Token::Keyword(s) => Token::Keyword(s.clone()),
            Token::StringToken(s) => Token::StringToken(s.clone()),
        }
    }
}

fn find_close_at(toks: &Vec<Token>, i: usize, depth: u128) -> (r: Option<usize>)
    requires
        i <= toks@.len(),
        1 <= depth <= i + 1,
    ensures
        match r {
            Some(j) => find_close(view_tokens(toks@), i as int, depth as int) == Some(j as int) && i
                <= j < toks@.len(),
            None => find_close(view_tokens(toks@), i as int, depth as int) is None,
        },
    decreases toks@.len() - i,
{
    proof {
        lemma_view_tokens(toks@);
        lemma_find_close(view_tokens(toks@), i as int, depth as int);
    }
    if i == toks.len() {
        None
    } else {
        match &toks[i] {
            Token::LParen => find_close_at(toks, i + 1, depth + 1),
            Token::RParen => {
                if depth == 1 {
                    Some(i)
                } else {
                    find_close_at(toks, i + 1, depth - 1)
                }
            },
            _ => find_close_at(toks, i + 1, depth),
        }
    }
}

fn push_dot_parts(chars: &Vec<char>, i: usize, parts: &mut Vec<LoomExp>)
    requires
        i <= chars@.len(),
    ensures
        view_items(final(parts)@) == view_items(old(parts)@) + dot_parts(chars@, i as int),
    decreases chars@.len() - i,
{
    proof {
        lemma_find_char(chars@, '.', i as int);
    }
    let j = find_char_at(chars, '.', i);
    let piece = from_chars(&sub_chars(chars, i, j));
    let ghost parts0 = parts@;
    parts.push(LoomExp::Symbol(piece));
    proof {
        crate::exp::lemma_view_items_push(parts0, LoomExp::Symbol(piece));
    }
    if j < chars.len() {
        let ghost parts1 = parts@;
        push_dot_parts(chars, j + 1, parts);
        proof {
            assert(view_items(parts@) =~= view_items(parts0) + dot_parts(chars@, i as int));
        }
    } else {
        proof {
            assert(chars@.subrange(i as int, j as int) =~= chars@.subrange(
                i as int,
                chars@.len() as int,
            ));
            assert(view_items(parts@) =~= view_items(parts0) + dot_parts(chars@, i as int));
        }
    }
}

fn symbol_to_exp(s: &String) -> (r: LoomExp)
    ensures
        r@ == symbol_exp(s@),
{
    let chars = to_chars(s.as_str());
    proof {
        lemma_find_char(chars@, '.', 0);
    }
    let dot = find_char_at(&chars, '.', 0);
    if dot < chars.len() {
        let mut parts: Vec<LoomExp> = Vec::new();
        parts.push(LoomExp::Symbol(String::from_str("get")));
        proof {
            reveal_strlit("get");
            crate::exp::lemma_view_items(parts@);
            assert(view_items(parts@) =~~= seq![ValV::Symbol(seq!['g', 'e', 't'])]);
        }
        push_dot_parts(&chars, 0, &mut parts);
        proof {
            assert(view_items(parts@) =~~= seq![ValV::Symbol(seq!['g', 'e', 't'])] + dot_parts(
                chars@,
                0,
            ));
        }
        LoomExp::List(parts)
    } else {
        LoomExp::Symbol(s.clone())
    }
}

} // verus!

verus! {

proof fn lemma_combine_vals_shift(done: Seq<ValV>, v: ValV, rest: Result<Seq<ValV>, ParseError>)
    ensures
        combine_vals(done.push(v), rest) == combine_vals(done, cons_val(v, rest)),
{
    match rest {
        Ok(s) => {
            assert(done.push(v) + s =~= done + (seq![v] + s));
        },
        Err(_) => {
        },
    }
}

/// Builds one expression tree, or a list of top-level trees, from a
/// token stream. With `is_list` false the first top-level form alone
/// is returned; an empty stream is then an `ImproperRoot` error.
pub fn tokens_to_exp(tokens: Vec<Token>, is_list: bool) -> (r: Result<LoomExp, ParseError>)
    ensures
        match r {
            Ok(e) => t2e_spec(view_tokens(tokens@), is_list) == Ok::<ValV, ParseError>(e@),
            Err(pe) => t2e_spec(view_tokens(tokens@), is_list) == Err::<ValV, ParseError>(pe),
        },
    decreases tokens@.len(),
{
    let ghost tv = view_tokens(tokens@);
    proof {
        lemma_view_tokens(tokens@);
        crate::exp::lemma_view_items(Seq::<LoomExp>::empty());
    }
    let mut items: Vec<LoomExp> = Vec::new();
    let mut i: usize = 0;
    while i < tokens.len()
        invariant
            i <= tokens@.len(),
            tv == view_tokens(tokens@),
            tv.len() == tokens@.len(),
            forall|k: int| 0 <= k < tokens@.len() ==> tv[k] == tokens@[k]@,
            t2e_items(tv, 0) == combine_vals(view_items(items@), t2e_items(tv, i as int)),
        decreases tokens@.len() - i,
    {
        match &tokens[i] {
            Token::LParen => {
                match find_close_at(&tokens, i + 1, 1) {
                    None => {
                        proof {
                            assert(t2e_items(tv, 0) == Err::<Seq<ValV>, ParseError>(
                                ParseError::Unknown,
                            ));
                        }
                        return Err(ParseError::Unknown);
                    },
                    Some(j) => {
                        let mut sub: Vec<Token> = Vec::new();
                        let mut k: usize = i + 1;
                        while k < j
                            invariant
                                i + 1 <= k <= j <= tokens@.len(),
                                tv == view_tokens(tokens@),
                                tv.len() == tokens@.len(),
                                forall|t: int| 0 <= t < tokens@.len() ==> tv[t] == tokens@[t]@,
                                view_tokens(sub@) == tv.subrange(i + 1 as int, k as int),
                            decreases j - k,
                        {
                            let ghost sub0 = sub@;
                            sub.push(tokens[k].duplicate());
                            k = k + 1;
                            proof {
                                lemma_view_tokens(sub0);
                                lemma_view_tokens(sub@);
                                assert(view_tokens(sub@) =~= tv.subrange(i + 1 as int, k as int));
                            }
                        }
                        let ghost subv = view_tokens(sub@);
                        proof {
                            assert(subv =~= tv.subrange(i + 1 as int, j as int));
                            lemma_view_tokens(sub@);
                            assert(sub@.len() < tokens@.len());
                        }
                        match tokens_to_exp(sub, true) {
                            Ok(e) => {
                                let ghost items0 = items@;
                                items.push(e);
                                proof {
                                    crate::exp::lemma_view_items_push(items0, e);
                                    lemma_combine_vals_shift(
                                        view_items(items0),
                                        e@,
                                        t2e_items(tv, j as int + 1),
                                    );
                                    assert(t2e_items(tv, 0) == combine_vals(
                                        view_items(items@),
                                        t2e_items(tv, j as int + 1),
                                    ));
                                }
                                i = j + 1;
                            },
                            Err(pe) => {
                                proof {
                                    assert(t2e_items(tv, 0) == Err::<Seq<ValV>, ParseError>(pe));
                                }
                                return Err(pe);
                            },
                        }
                    },
                }
            },
            Token::RParen => {
                proof {
                    assert(t2e_items(tv, 0) == Err::<Seq<ValV>, ParseError>(
                        ParseError::UnexpectedRParen,
                    ));
                }
                return Err(ParseError::UnexpectedRParen);
            },
            Token::Symbol(s) => {
                let e = symbol_to_exp(s);
                let ghost items0 = items@;
                items.push(e);
                proof {
                    crate::exp::lemma_view_items_push(items0, e);
                    lemma_combine_vals_shift(view_items(items0), e@, t2e_items(tv, i as int + 1));
                }
                i = i + 1;
            },
            Token::Keyword(n) => {
                let e = LoomExp::Keyword(n.clone());
                let ghost items0 = items@;
                items.push(e);
                proof {
                    crate::exp::lemma_view_items_push(items0, e);
                    lemma_combine_vals_shift(view_items(items0), e@, t2e_items(tv, i as int + 1));
                }
                i = i + 1;
            },
            Token::Number(n) => {
                let e = LoomExp::Number(*n);
                let ghost items0 = items@;
                items.push(e);
                proof {
                    crate::exp::lemma_view_items_push(items0, e);
                    lemma_combine_vals_shift(view_items(items0), e@, t2e_items(tv, i as int + 1));
                }
                i = i + 1;
            },
            Token::StringToken(s) => {
                let e = LoomExp::FString(s.clone());
                let ghost items0 = items@;
                items.push(e);
                proof {
                    crate::exp::lemma_view_items_push(items0, e);
                    lemma_combine_vals_shift(view_items(items0), e@, t2e_items(tv, i as int + 1));
                }
                i = i + 1;
            },
        }
    }
    proof {
        crate::exp::lemma_view_items(items@);
        assert(view_items(items@) + Seq::<ValV>::empty() =~= view_items(items@));
        assert(t2e_items(tv, 0) == Ok::<Seq<ValV>, ParseError>(view_items(items@)));
    }
    if is_list {
        Ok(LoomExp::List(items))
    } else {
        if items.len() == 0 {
            Err(ParseError::ImproperRoot)
        } else {
            let first = items.remove(0);
            Ok(first)
        }
    }
}

} // verus!
