//! The lexer: command-line text to tokens, one token per call.

use crate::text::{chars_of, white_space, lemma_run_len, lemma_run_len_unique, run_len, string_of};
use vstd::prelude::*;

verus! {

/// The three redirection operators: `<`, `>` and `>>`.
#[derive(Debug, PartialEq, Eq, Clone, Copy, Structural)]
pub enum RedirectOp {
    Input,
    Output,
    Append,
}

/// One lexical unit of a command line.
#[derive(Debug, PartialEq, Clone)]
pub enum Token {
    Word(String),
    Pipe,
    Redirect(RedirectOp),
    Background,
    Semi,
    EOF,
}

/// A token with its text as a sequence of characters.
pub enum TokenView {
    Word(Seq<char>),
    Pipe,
    Redirect(RedirectOp),
    Background,
    Semi,
    EOF,
}

impl View for Token {
    type V = TokenView;

    open spec fn view(&self) -> TokenView {
        match *self {
            Token::Word(w) => TokenView::Word(w@),
            Token::Pipe => TokenView::Pipe,
            Token::Redirect(op) => TokenView::Redirect(op),
            Token::Background => TokenView::Background,
            Token::Semi => TokenView::Semi,
            Token::EOF => TokenView::EOF,
        }
    }
}

/// The characters that end a bare word besides white space.
pub open spec fn is_operator(c: char) -> bool {
    c == ';' || c == '<' || c == '>' || c == '|' || c == '&'
}

/// The characters a bare word is made of.
pub open spec fn is_word_char(c: char) -> bool {
    !white_space(c) && !is_operator(c)
}

pub open spec fn whitespace_chars() -> spec_fn(char) -> bool {
    |c: char| white_space(c)
}

pub open spec fn word_chars() -> spec_fn(char) -> bool {
    |c: char| is_word_char(c)
}

/// `s` without its leading white space.
pub open spec fn after_whitespace(s: Seq<char>) -> Seq<char> {
    s.skip(run_len(s, whitespace_chars()) as int)
}

/// Reads what follows an opening quote: the text up to the closing `quote`, and
/// what is left after it. A backslash takes the next character literally and is
/// itself dropped. Without a closing quote the text runs to the end.
pub open spec fn quoted(s: Seq<char>, quote: char) -> (Seq<char>, Seq<char>)
    decreases s.len(),
{
    if s.len() == 0 {
        (Seq::empty(), s)
    } else if s[0] == '\\' {
        if s.len() == 1 {
            (Seq::empty(), s.skip(1))
        } else {
            let (text, rest) = quoted(s.skip(2), quote);
            (seq![s[1]] + text, rest)
        }
    } else if s[0] == quote {
        (Seq::empty(), s.skip(1))
    } else {
        let (text, rest) = quoted(s.skip(1), quote);
        (seq![s[0]] + text, rest)
    }
}

/// The first token of `s` and what is left of `s` after it.
pub open spec fn lex_token(s: Seq<char>) -> (TokenView, Seq<char>) {
    let t = after_whitespace(s);
    if t.len() == 0 {
        (TokenView::EOF, t)
    } else if t[0] == '|' {
        (TokenView::Pipe, t.skip(1))
    } else if t[0] == ';' {
        (TokenView::Semi, t.skip(1))
    } else if t[0] == '&' {
        (TokenView::Background, t.skip(1))
    } else if t[0] == '<' {
        (TokenView::Redirect(RedirectOp::Input), t.skip(1))
    } else if t[0] == '>' {
        if t.len() > 1 && t[1] == '>' {
            (TokenView::Redirect(RedirectOp::Append), t.skip(2))
        } else {
            (TokenView::Redirect(RedirectOp::Output), t.skip(1))
        }
    } else if t[0] == '"' || t[0] == '\'' {
        let (text, rest) = quoted(t.skip(1), t[0]);
        (TokenView::Word(text), rest)
    } else {
        let n = run_len(t, word_chars()) as int;
        (TokenView::Word(t.take(n)), t.skip(n))
    }
}

/// All the tokens of `s` in order, the closing `EOF` left out.
pub open spec fn tokens(s: Seq<char>) -> Seq<TokenView>
    decreases s.len(),
    via tokens_decreases
{
    let (token, rest) = lex_token(s);
    if token is EOF {
        Seq::empty()
    } else {
        seq![token] + tokens(rest)
    }
}

#[via_fn]
proof fn tokens_decreases(s: Seq<char>) {
    lemma_lex_token_progress(s);
}

/// What is left after a quoted text is never longer than what was there.
pub proof fn lemma_quoted_shrinks(s: Seq<char>, quote: char)
    ensures
        quoted(s, quote).1.len() <= s.len(),
    decreases s.len(),
{
    if s.len() == 0 {
    } else if s[0] == '\\' {
        if s.len() > 1 {
            lemma_quoted_shrinks(s.skip(2), quote);
        }
    } else if s[0] != quote {
        lemma_quoted_shrinks(s.skip(1), quote);
    }
}

/// Every token but `EOF` uses up at least one character, and `EOF` comes only
/// when nothing but white space is left.
pub proof fn lemma_lex_token_progress(s: Seq<char>)
    ensures
        lex_token(s).0 is EOF ==> lex_token(s).1.len() == 0,
        !(lex_token(s).0 is EOF) ==> lex_token(s).1.len() < s.len(),
        lex_token(s).0 is EOF <==> run_len(s, whitespace_chars()) == s.len(),
{
    lemma_run_len(s, whitespace_chars());
    let t = after_whitespace(s);
    if t.len() > 0 {
        assert(t[0] == s[run_len(s, whitespace_chars()) as int]);
        assert(!white_space(t[0]));
        if t[0] == '"' || t[0] == '\'' {
            lemma_quoted_shrinks(t.skip(1), t[0]);
        } else if !is_operator(t[0]) {
            lemma_run_len(t, word_chars());
            assert(is_word_char(t[0]));
            assert(run_len(t, word_chars()) >= 1);
        }
    }
}

/// What is left after a quoted text is an end piece of what was there.
pub proof fn lemma_quoted_rest_is_suffix(s: Seq<char>, quote: char)
    ensures
        quoted(s, quote).1.len() <= s.len(),
        quoted(s, quote).1 == s.skip(s.len() - quoted(s, quote).1.len()),
    decreases s.len(),
{
    let rest = quoted(s, quote).1;
    if s.len() == 0 {
        assert(rest =~= s.skip(0));
    } else if s[0] == '\\' {
        if s.len() > 1 {
            lemma_quoted_rest_is_suffix(s.skip(2), quote);
            assert(rest =~= s.skip(s.len() - rest.len()));
        }
    } else if s[0] != quote {
        lemma_quoted_rest_is_suffix(s.skip(1), quote);
        assert(rest =~= s.skip(s.len() - rest.len()));
    }
}

/// What is left after a token is an end piece of the text it was read from.
pub proof fn lemma_lex_token_rest_is_suffix(s: Seq<char>)
    ensures
        lex_token(s).1.len() <= s.len(),
        lex_token(s).1 == s.skip(s.len() - lex_token(s).1.len()),
{
    lemma_run_len(s, whitespace_chars());
    let t = after_whitespace(s);
    let rest = lex_token(s).1;
    if t.len() > 0 {
        if t[0] == '"' || t[0] == '\'' {
            lemma_quoted_rest_is_suffix(t.skip(1), t[0]);
        } else if !is_operator(t[0]) {
            lemma_run_len(t, word_chars());
        }
    }
    assert(rest =~= s.skip(s.len() - rest.len()));
}

/// A text in which none of `;`, `<`, `>`, `|`, `&` occurs.
pub open spec fn no_operators(s: Seq<char>) -> bool {
    forall|i: int| 0 <= i < s.len() ==> !is_operator(#[trigger] s[i])
}

/// Whether every token of `ts` is a word.
pub open spec fn all_words(ts: Seq<TokenView>) -> bool {
    forall|i: int| 0 <= i < ts.len() ==> #[trigger] ts[i] is Word
}

/// A text without operator characters lexes to words only.
pub proof fn lemma_tokens_without_operators(s: Seq<char>)
    requires
        no_operators(s),
    ensures
        all_words(tokens(s)),
    decreases s.len(),
{
    let (token, rest) = lex_token(s);
    lemma_lex_token_progress(s);
    lemma_lex_token_rest_is_suffix(s);
    if !(token is EOF) {
        lemma_run_len(s, whitespace_chars());
        let t = after_whitespace(s);
        assert(t[0] == s[run_len(s, whitespace_chars()) as int]);
        assert(token is Word);
        assert forall|i: int| 0 <= i < rest.len() implies !is_operator(#[trigger] rest[i]) by {
            assert(rest[i] == s[s.len() - rest.len() + i]);
        }
        lemma_tokens_without_operators(rest);
        assert forall|i: int| 0 <= i < tokens(s).len() implies #[trigger] tokens(s)[i] is Word by {
            if i > 0 {
                assert(tokens(s)[i] == tokens(rest)[i - 1]);
            }
        }
    }
}

/// A lexer over a command line. Its view is the text not yet read.
pub struct Lexer {
    input: Vec<char>,
    pos: usize,
}

impl View for Lexer {
    type V = Seq<char>;

    closed spec fn view(&self) -> Seq<char> {
        self.input@.skip(self.pos as int)
    }
}

impl Lexer {
    #[verifier::type_invariant]
    spec fn inv(self) -> bool {
        self.pos <= self.input.len()
    }

    /// A lexer at the start of `input`.
    pub fn new(input: &str) -> (lexer: Lexer)
        ensures
            lexer@ == input@,
    {
        let chars = chars_of(input);
        assert(chars@.skip(0) =~= chars@);
        Lexer { input: chars, pos: 0 }
    }

    /// Reads the next token. Never fails: at the end of the text, and from then
    /// on, the token is `EOF`.
    pub fn next_token(&mut self) -> (token: Token)
        ensures
            (token@, final(self)@) == lex_token(old(self)@),
    {
        self.skip_whitespace();
        match self.peek_char() {
            None => Token::EOF,
            Some(c) => {
                if c == '|' {
                    self.read_char();
                    Token::Pipe
                } else if c == ';' {
                    self.read_char();
                    Token::Semi
                } else if c == '&' {
                    self.read_char();
                    Token::Background
                } else if c == '<' {
                    self.read_char();
                    Token::Redirect(RedirectOp::Input)
                } else if c == '>' {
                    self.read_char();
                    let ghost t = after_whitespace(old(self)@);
                    match self.peek_char() {
                        Some(d) => {
                            assert(t.skip(1)[0] == t[1]);
                            if d == '>' {
                                self.read_char();
                                assert(t.skip(1).skip(1) =~= t.skip(2));
                                Token::Redirect(RedirectOp::Append)
                            } else {
                                Token::Redirect(RedirectOp::Output)
                            }
                        },
                        None => Token::Redirect(RedirectOp::Output),
                    }
                } else if c == '"' || c == '\'' {
                    self.read_quoted_string()
                } else {
                    self.read_word()
                }
            },
        }
    }

    fn read_char(&mut self) -> (c: Option<char>)
        ensures
            old(self)@.len() == 0 ==> c is None && final(self)@ == old(self)@,
            old(self)@.len() > 0 ==> c == Some(old(self)@[0]) && final(self)@ == old(self)@.skip(1),
    {
        proof {
            use_type_invariant(&*self);
        }
        if self.pos < self.input.len() {
            let c = self.input[self.pos];
            self.pos = self.pos + 1;
            assert(old(self)@.skip(1) =~= self@);
            Some(c)
        } else {
            None
        }
    }

    fn peek_char(&self) -> (c: Option<char>)
        ensures
            self@.len() == 0 ==> c is None,
            self@.len() > 0 ==> c == Some(self@[0]),
    {
        proof {
            use_type_invariant(self);
        }
        if self.pos < self.input.len() {
            Some(self.input[self.pos])
        } else {
            None
        }
    }

    fn skip_whitespace(&mut self)
        ensures
            final(self)@ == after_whitespace(old(self)@),
    {
        proof {
            use_type_invariant(&*self);
        }
        let start = self.pos;
        let mut i = self.pos;
        while i < self.input.len() && self.input[i].is_whitespace()
            invariant
                start <= i <= self.input.len(),
                forall|k: int| start <= k < i ==> white_space(#[trigger] self.input@[k]),
            decreases self.input.len() - i,
        {
            i += 1;
        }
        proof {
            let s = self@;
            let n = (i - start) as nat;
            assert forall|k: int| 0 <= k < n implies whitespace_chars()(#[trigger] s[k]) by {
                assert(s[k] == self.input@[start + k]);
            }
            lemma_run_len_unique(s, whitespace_chars(), n);
            assert(self.input@.skip(i as int) =~= s.skip(n as int));
        }
        self.pos = i;
    }

    fn read_word(&mut self) -> (token: Token)
        ensures
            token@ == TokenView::Word(old(self)@.take(run_len(old(self)@, word_chars()) as int)),
            final(self)@ == old(self)@.skip(run_len(old(self)@, word_chars()) as int),
    {
        proof {
            use_type_invariant(&*self);
        }
        let start = self.pos;
        let mut i = self.pos;
        while i < self.input.len() && !self.input[i].is_whitespace() && !is_operator_char(
            self.input[i],
        )
            invariant
                start <= i <= self.input.len(),
                forall|k: int| start <= k < i ==> is_word_char(#[trigger] self.input@[k]),
            decreases self.input.len() - i,
        {
            i += 1;
        }
        let word = string_of(&self.input, start, i);
        proof {
            let s = self@;
            let n = (i - start) as nat;
            assert forall|k: int| 0 <= k < n implies word_chars()(#[trigger] s[k]) by {
                assert(s[k] == self.input@[start + k]);
            }
            lemma_run_len_unique(s, word_chars(), n);
            assert(self.input@.skip(i as int) =~= s.skip(n as int));
            assert(self.input@.subrange(start as int, i as int) =~= s.take(n as int));
        }
        self.pos = i;
        Token::Word(word)
    }

    fn read_quoted_string(&mut self) -> (token: Token)
        requires
            old(self)@.len() > 0,
        ensures
            token@ == TokenView::Word(quoted(old(self)@.skip(1), old(self)@[0]).0),
            final(self)@ == quoted(old(self)@.skip(1), old(self)@[0]).1,
    {
        proof {
            use_type_invariant(&*self);
        }
        let quote = self.input[self.pos];
        let mut text = String::new();
        let mut i = self.pos + 1;
        let ghost body = self@.skip(1);
        assert(self.input@.skip(i as int) =~= body);
        let mut closed = false;
        while !closed && i < self.input.len()
            invariant
                i <= self.input.len(),
                !closed ==> quoted(body, quote) == (
                    text@ + quoted(self.input@.skip(i as int), quote).0,
                    quoted(self.input@.skip(i as int), quote).1,
                ),
                closed ==> quoted(body, quote) == (text@, self.input@.skip(i as int)),
            decreases self.input.len() - i,
        {
            let ghost rest = self.input@.skip(i as int);
            let c = self.input[i];
            assert(rest[0] == c);
            if c == '\\' {
                if i + 1 < self.input.len() {
                    let d = self.input[i + 1];
                    assert(rest[1] == d);
                    assert(rest.skip(2) =~= self.input@.skip(i + 2));
                    assert(text@.push(d) + quoted(rest.skip(2), quote).0 =~= text@ + (seq![d]
                        + quoted(rest.skip(2), quote).0));
                    text.push(d);
                    i += 2;
                } else {
                    assert(rest.skip(1) =~= self.input@.skip(i + 1));
                    assert(text@ + Seq::<char>::empty() =~= text@);
                    i += 1;
                    closed = true;
                }
            } else if c == quote {
                assert(rest.skip(1) =~= self.input@.skip(i + 1));
                assert(text@ + Seq::<char>::empty() =~= text@);
                i += 1;
                closed = true;
            } else {
                assert(rest.skip(1) =~= self.input@.skip(i + 1));
                assert(text@.push(c) + quoted(rest.skip(1), quote).0 =~= text@ + (seq![c] + quoted(
                    rest.skip(1),
                    quote,
                ).0));
                text.push(c);
                i += 1;
            }
        }
        proof {
            if !closed {
                assert(text@ + Seq::<char>::empty() =~= text@);
            }
        }
        self.pos = i;
        Token::Word(text)
    }
}

/// Whether `c` is one of `;`, `<`, `>`, `|`, `&`.
fn is_operator_char(c: char) -> (b: bool)
    ensures
        b == is_operator(c),
{
    c == ';' || c == '<' || c == '>' || c == '|' || c == '&'
}

} // verus!
