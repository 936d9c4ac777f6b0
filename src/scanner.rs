//! Turns source text into tokens.
use vstd::prelude::*;

pub use crate::ast::{Token, TokenKind};
use crate::ast::{tokens_view, TokenModel};
use crate::result::{diagnostic, Diagnostic, Error, RloxResult, ScannerError, Stage};
use crate::text::{chars_are, chars_of, string_from_range};
use vstd::string::StringExecFns;

verus! {

pub open spec fn is_digit(c: char) -> bool {
    '0' <= c && c <= '9'
}

pub open spec fn is_alpha(c: char) -> bool {
    ('a' <= c && c <= 'z') || ('A' <= c && c <= 'Z') || c == '_'
}

pub open spec fn is_alpha_numeric(c: char) -> bool {
    is_alpha(c) || is_digit(c)
}

/// The first position at or after `i` whose character fails `p`, or the end.
pub open spec fn run_end(s: Seq<char>, i: int, p: spec_fn(char) -> bool) -> int
    decreases s.len() - i,
{
    if 0 <= i < s.len() && p(s[i]) {
        run_end(s, i + 1, p)
    } else {
        i
    }
}

pub open spec fn digit_run(s: Seq<char>, i: int) -> int {
    run_end(s, i, |c: char| is_digit(c))
}

pub open spec fn word_run(s: Seq<char>, i: int) -> int {
    run_end(s, i, |c: char| is_alpha_numeric(c))
}

/// The end of a `//` comment body starting at `i`: the next newline, or the end.
pub open spec fn comment_run(s: Seq<char>, i: int) -> int {
    run_end(s, i, |c: char| c != '\n')
}

/// The position of the closing quote of a string body starting at `i`, or the end.
pub open spec fn string_run(s: Seq<char>, i: int) -> int {
    run_end(s, i, |c: char| c != '"')
}

/// The end of a number starting at `i`: digits, then a `.` and digits only
/// when a digit follows the `.`.
pub open spec fn number_end(s: Seq<char>, i: int) -> int {
    let e = digit_run(s, i + 1);
    if e + 1 < s.len() && s[e] == '.' && is_digit(s[e + 1]) {
        digit_run(s, e + 1)
    } else {
        e
    }
}

/// How many newlines `s[i..j]` holds.
pub open spec fn newlines(s: Seq<char>, i: int, j: int) -> nat
    decreases j - i,
{
    if i < j {
        newlines(s, i, j - 1) + if s[j - 1] == '\n' {
            1nat
        } else {
            0nat
        }
    } else {
        0
    }
}

/// The kind of a word: its keyword, or `Identifier`.
pub open spec fn keyword_kind(w: Seq<char>) -> TokenKind {
    if w == "and"@ {
        TokenKind::And
    } else if w == "class"@ {
        TokenKind::Class
    } else if w == "else"@ {
        TokenKind::Else
    } else if w == "false"@ {
        TokenKind::False
    } else if w == "for"@ {
        TokenKind::For
    } else if w == "fun"@ {
        TokenKind::Function
    } else if w == "if"@ {
        TokenKind::If
    } else if w == "nil"@ {
        TokenKind::Nil
    } else if w == "or"@ {
        TokenKind::Or
    } else if w == "print"@ {
        TokenKind::Print
    } else if w == "return"@ {
        TokenKind::Return
    } else if w == "super"@ {
        TokenKind::Super
    } else if w == "this"@ {
        TokenKind::This
    } else if w == "true"@ {
        TokenKind::True
    } else if w == "var"@ {
        TokenKind::Var
    } else if w == "while"@ {
        TokenKind::While
    } else {
        TokenKind::Identifier
    }
}

/// The kind of a one-character token, if `c` is one.
pub open spec fn single_kind(c: char) -> Option<TokenKind> {
    if c == '(' {
        Some(TokenKind::LeftParen)
    } else if c == ')' {
        Some(TokenKind::RightParen)
    } else if c == '{' {
        Some(TokenKind::LeftBrace)
    } else if c == '}' {
        Some(TokenKind::RightBrace)
    } else if c == ',' {
        Some(TokenKind::Coma)
    } else if c == '.' {
        Some(TokenKind::Dot)
    } else if c == '-' {
        Some(TokenKind::Minus)
    } else if c == '+' {
        Some(TokenKind::Plus)
    } else if c == ';' {
        Some(TokenKind::Semicolon)
    } else if c == '*' {
        Some(TokenKind::Star)
    } else {
        None
    }
}

/// For `!`, `=`, `<` and `>`: the kind alone and the kind when `=` follows.
pub open spec fn pair_kinds(c: char) -> Option<(TokenKind, TokenKind)> {
    if c == '!' {
        Some((TokenKind::Bang, TokenKind::BangEqual))
    } else if c == '=' {
        Some((TokenKind::Equal, TokenKind::EqualEqual))
    } else if c == '<' {
        Some((TokenKind::Less, TokenKind::LessEqual))
    } else if c == '>' {
        Some((TokenKind::Greater, TokenKind::GreaterEqual))
    } else {
        None
    }
}

pub open spec fn msg_unterminated() -> Seq<char> {
    "Unterminated string"@
}

pub open spec fn msg_unexpected() -> Seq<char> {
    "Unexpected character."@
}

/// What the scanner does at one position.
pub enum Lexed {
    /// Nothing is emitted; scanning goes on at `next` on line `line`.
    Skip { next: int, line: nat },
    /// A token of `kind` spanning up to `next`; scanning goes on on line `line`.
    Emit { kind: TokenKind, next: int, line: nat, literal: Seq<char> },
    /// Scanning stops with this diagnostic.
    Fail(Diagnostic),
}

/// The single step of the scanner at position `i` (with `i < s.len()`), on line `line`.
pub open spec fn lex_at(s: Seq<char>, i: int, line: nat) -> Lexed {
    let c = s[i];
    let empty = Seq::<char>::empty();
    if single_kind(c) is Some {
        Lexed::Emit { kind: single_kind(c)->0, next: i + 1, line, literal: empty }
    } else if let Some((alone, with_equal)) = pair_kinds(c) {
        if i + 1 < s.len() && s[i + 1] == '=' {
            Lexed::Emit { kind: with_equal, next: i + 2, line, literal: empty }
        } else {
            Lexed::Emit { kind: alone, next: i + 1, line, literal: empty }
        }
    } else if c == '/' {
        if i + 1 < s.len() && s[i + 1] == '/' {
            Lexed::Skip { next: comment_run(s, i + 2), line }
        } else {
            Lexed::Emit { kind: TokenKind::Slash, next: i + 1, line, literal: empty }
        }
    } else if c == ' ' || c == '\r' || c == '\t' {
        Lexed::Skip { next: i + 1, line }
    } else if c == '\n' {
        Lexed::Skip { next: i + 1, line: line + 1 }
    } else if c == '"' {
        let q = string_run(s, i + 1);
        if q >= s.len() {
            Lexed::Fail(diagnostic(Stage::Scanner, line, msg_unterminated()))
        } else {
            Lexed::Emit {
                kind: TokenKind::String,
                next: q + 1,
                line: line + newlines(s, i + 1, q),
                literal: s.subrange(i + 1, q),
            }
        }
    } else if is_digit(c) {
        let e = number_end(s, i);
        Lexed::Emit { kind: TokenKind::Number, next: e, line, literal: s.subrange(i, e) }
    } else if is_alpha(c) {
        let e = word_run(s, i + 1);
        let kind = keyword_kind(s.subrange(i, e));
        Lexed::Emit {
            kind,
            next: e,
            line,
            literal: if kind == TokenKind::Identifier {
                s.subrange(i, e)
            } else {
                empty
            },
        }
    } else {
        Lexed::Fail(diagnostic(Stage::Scanner, line, msg_unexpected()))
    }
}

/// `prefix` in front of the tokens of `rest`, or the diagnostic of `rest`.
pub open spec fn prepend(prefix: Seq<TokenModel>, rest: Result<Seq<TokenModel>, Diagnostic>) -> Result<
    Seq<TokenModel>,
    Diagnostic,
> {
    match rest {
        Ok(ts) => Ok(prefix + ts),
        Err(d) => Err(d),
    }
}

/// The tokens of `s` from position `i` on, starting on line `line`: the
/// end-of-input token comes last; the first failing step stops the scan.
pub open spec fn scan_from(s: Seq<char>, i: int, line: nat) -> Result<Seq<TokenModel>, Diagnostic>
    decreases s.len() - i,
    via scan_from_decreases
{
    if i < 0 || i >= s.len() {
        Ok(
            seq![TokenModel { kind: TokenKind::EOF, line, lexeme: Seq::empty(), literal: Seq::empty() }],
        )
    } else {
        match lex_at(s, i, line) {
            Lexed::Skip { next, line } => scan_from(s, next, line),
            Lexed::Emit { kind, next, line: after, literal } => prepend(
                seq![TokenModel { kind, line, lexeme: s.subrange(i, next), literal }],
                scan_from(s, next, after),
            ),
            Lexed::Fail(d) => Err(d),
        }
    }
}

/// The tokens of the source text `s`, or the first scanner diagnostic.
pub open spec fn scan_spec(s: Seq<char>) -> Result<Seq<TokenModel>, Diagnostic> {
    scan_from(s, 0, 1)
}

pub proof fn lemma_run_end(s: Seq<char>, i: int, p: spec_fn(char) -> bool)
    requires
        0 <= i <= s.len(),
    ensures
        i <= run_end(s, i, p) <= s.len(),
        forall|j: int| i <= j < run_end(s, i, p) ==> p(s[j]),
        run_end(s, i, p) < s.len() ==> !p(s[run_end(s, i, p)]),
    decreases s.len() - i,
{
    if i < s.len() && p(s[i]) {
        lemma_run_end(s, i + 1, p);
    }
}

pub proof fn lemma_newlines_bound(s: Seq<char>, i: int, j: int)
    requires
        i <= j,
    ensures
        newlines(s, i, j) <= j - i,
    decreases j - i,
{
    if i < j {
        lemma_newlines_bound(s, i, j - 1);
    }
}

/// Every step of the scanner moves forward and stays within the text.
pub proof fn lemma_lex_advances(s: Seq<char>, i: int, line: nat)
    requires
        0 <= i < s.len(),
    ensures
        match lex_at(s, i, line) {
            Lexed::Skip { next, .. } => i < next <= s.len(),
            Lexed::Emit { next, .. } => i < next <= s.len(),
            Lexed::Fail(_) => true,
        },
{
    let c = s[i];
    if c == '/' && i + 1 < s.len() && s[i + 1] == '/' {
        lemma_run_end(s, i + 2, |c: char| c != '\n');
    }
    if c == '"' {
        lemma_run_end(s, i + 1, |c: char| c != '"');
    }
    if is_digit(c) {
        lemma_run_end(s, i + 1, |c: char| is_digit(c));
        let e = digit_run(s, i + 1);
        if e + 1 < s.len() {
            lemma_run_end(s, e + 1, |c: char| is_digit(c));
        }
    }
    if is_alpha(c) {
        lemma_run_end(s, i + 1, |c: char| is_alpha_numeric(c));
    }
}

#[via_fn]
proof fn scan_from_decreases(s: Seq<char>, i: int, line: nat) {
    if 0 <= i < s.len() {
        lemma_lex_advances(s, i, line);
    }
}

} // verus!

verus! {

/// Scanner state: the source characters, the tokens so far, the window
/// `[start, current)` of the lexeme under construction, and the current line.
pub struct Scanner {
    source: Vec<char>,
    tokens: Vec<Token>,
    current: usize,
    start: usize,
    line: usize,
}

/// The kind of a scanned word.
fn keyword(word: &Vec<char>) -> (r: TokenKind)
    ensures
        r == keyword_kind(word@),
{
    if chars_are(word, "and") {
        TokenKind::And
    } else if chars_are(word, "class") {
        TokenKind::Class
    } else if chars_are(word, "else") {
        TokenKind::Else
    } else if chars_are(word, "false") {
        TokenKind::False
    } else if chars_are(word, "for") {
        TokenKind::For
    } else if chars_are(word, "fun") {
        TokenKind::Function
    } else if chars_are(word, "if") {
        TokenKind::If
    } else if chars_are(word, "nil") {
        TokenKind::Nil
    } else if chars_are(word, "or") {
        TokenKind::Or
    } else if chars_are(word, "print") {
        TokenKind::Print
    } else if chars_are(word, "return") {
        TokenKind::Return
    } else if chars_are(word, "super") {
        TokenKind::Super
    } else if chars_are(word, "this") {
        TokenKind::This
    } else if chars_are(word, "true") {
        TokenKind::True
    } else if chars_are(word, "var") {
        TokenKind::Var
    } else if chars_are(word, "while") {
        TokenKind::While
    } else {
        TokenKind::Identifier
    }
}

impl Scanner {
    pub closed spec fn wf(&self) -> bool {
        &&& self.start <= self.current <= self.source@.len()
        &&& 1 <= self.line <= self.current + 1
        &&& self.source@.len() < usize::MAX
    }

    /// Scans `source` into tokens, ending with the end-of-input token, or
    /// returns the first scanner diagnostic.
    pub fn scan(source: &str) -> (r: RloxResult<Vec<Token>>)
        requires
            source@.len() < usize::MAX,
        ensures
            match scan_spec(source@) {
                Ok(ts) => r is Ok && tokens_view(r->Ok_0@) == ts,
                Err(d) => r is Err && r->Err_0@ == d,
            },
    {
        let mut scanner = Scanner {
            source: chars_of(source),
            tokens: Vec::new(),
            current: 0,
            start: 0,
            line: 1,
        };
        assert(tokens_view(scanner.tokens@) =~= Seq::empty());
        match scanner.scan_tokens() {
            Ok(()) => Ok(scanner.tokens),
            Err(e) => Err(e),
        }
    }

    /// Scans `source`, reporting a failure as a [`ScannerError`].
    pub fn tokenize(source: &str) -> (r: Result<Vec<Token>, ScannerError>)
        requires
            source@.len() < usize::MAX,
        ensures
            match scan_spec(source@) {
                Ok(ts) => r is Ok && tokens_view(r->Ok_0@) == ts,
                Err(d) => r is Err && r->Err_0.msg@ == d.message && r->Err_0.line == d.line,
            },
    {
        match Scanner::scan(source) {
            Ok(tokens) => Ok(tokens),
            Err(e) => {
                let line = e.line();
                let msg = e.message().clone();
                Err(ScannerError { msg, line })
            },
        }
    }

    fn is_at_end(&self) -> (r: bool)
        ensures
            r == (self.current >= self.source@.len()),
    {
        self.current >= self.source.len()
    }

    fn scan_tokens(&mut self) -> (r: RloxResult<()>)
        requires
            old(self).wf(),
            old(self).start == 0 && old(self).current == 0 && old(self).line == 1,
            old(self).tokens@.len() == 0,
        ensures
            match scan_spec(old(self).source@) {
                Ok(ts) => r is Ok && tokens_view(final(self).tokens@) == ts,
                Err(d) => r is Err && r->Err_0@ == d,
            },
    {
        let ghost src = self.source@;
        while !self.is_at_end()
            invariant
                self.wf(),
                self.source@ == src,
                src == old(self).source@,
                self.start == self.current,
                scan_spec(src) == prepend(
                    tokens_view(self.tokens@),
                    scan_from(src, self.current as int, self.line as nat),
                ),
            decreases src.len() - self.current,
        {
            let ghost pre = *self;
            proof {
                lemma_lex_advances(src, self.current as int, self.line as nat);
                assert(scan_from(src, pre.current as int, pre.line as nat) == match lex_at(
                    src,
                    pre.current as int,
                    pre.line as nat,
                ) {
                    Lexed::Skip { next, line } => scan_from(src, next, line),
                    Lexed::Emit { kind, next, line: after, literal } => prepend(
                        seq![TokenModel { kind, line: pre.line as nat, lexeme: src.subrange(pre.current as int, next), literal }],
                        scan_from(src, next, after),
                    ),
                    Lexed::Fail(d) => Err(d),
                });
            }
            match self.scan_token() {
                Ok(()) => {},
                Err(e) => {
                    proof {
                        let d = e@;
                        assert(lex_at(src, pre.current as int, pre.line as nat) == Lexed::Fail(d));
                        assert(scan_from(src, pre.current as int, pre.line as nat) == Err::<
                            Seq<TokenModel>,
                            Diagnostic,
                        >(d));
                    }
                    return Err(e);
                },
            }
            proof {
                match lex_at(src, pre.current as int, pre.line as nat) {
                    Lexed::Emit { kind, next, line, literal } => {
                        let t = TokenModel {
                            kind,
                            line: pre.line as nat,
                            lexeme: src.subrange(pre.current as int, next),
                            literal,
                        };
                        let rest = scan_from(src, next, line);
                        match rest {
                            Ok(ts) => {
                                assert(tokens_view(pre.tokens@) + (seq![t] + ts) =~= tokens_view(
                                    self.tokens@,
                                ) + ts);
                            },
                            Err(_) => {},
                        }
                    },
                    _ => {},
                }
            }
            self.start = self.current;
        }
        self.start = self.current;
        let line = self.line;
        let ghost before = tokens_view(self.tokens@);
        self.add_token(TokenKind::EOF, line, String::new());
        proof {
            let eof = TokenModel {
                kind: TokenKind::EOF,
                line: line as nat,
                lexeme: Seq::empty(),
                literal: Seq::empty(),
            };
            assert(src.subrange(self.start as int, self.current as int) =~= Seq::<char>::empty());
            assert(scan_from(src, self.current as int, line as nat) == Ok::<
                Seq<TokenModel>,
                Diagnostic,
            >(seq![eof]));
            assert(before + seq![eof] =~= before.push(eof));
        }
        Ok(())
    }

    fn scan_token(&mut self) -> (r: RloxResult<()>)
        requires
            old(self).wf(),
            old(self).start == old(self).current,
            old(self).current < old(self).source@.len(),
        ensures
            final(self).source@ == old(self).source@,
            match lex_at(old(self).source@, old(self).current as int, old(self).line as nat) {
                Lexed::Fail(d) => r is Err && r->Err_0@ == d,
                Lexed::Skip { next, line } => {
                    &&& r is Ok
                    &&& final(self).wf()
                    &&& final(self).current == next
                    &&& final(self).line == line
                    &&& final(self).tokens@ == old(self).tokens@
                },
                Lexed::Emit { kind, next, line, literal } => {
                    &&& r is Ok
                    &&& final(self).wf()
                    &&& final(self).current == next
                    &&& final(self).line == line
                    &&& tokens_view(final(self).tokens@) == tokens_view(old(self).tokens@).push(
                        TokenModel {
                            kind,
                            line: old(self).line as nat,
                            lexeme: old(self).source@.subrange(old(self).current as int, next),
                            literal,
                        },
                    )
                },
            },
    {
        let line = self.line;
        let c = self.advance();
        let one: Option<TokenKind> = if c == '(' {
            Some(TokenKind::LeftParen)
        } else if c == ')' {
            Some(TokenKind::RightParen)
        } else if c == '{' {
            Some(TokenKind::LeftBrace)
        } else if c == '}' {
            Some(TokenKind::RightBrace)
        } else if c == ',' {
            Some(TokenKind::Coma)
        } else if c == '.' {
            Some(TokenKind::Dot)
        } else if c == '-' {
            Some(TokenKind::Minus)
        } else if c == '+' {
            Some(TokenKind::Plus)
        } else if c == ';' {
            Some(TokenKind::Semicolon)
        } else if c == '*' {
            Some(TokenKind::Star)
        } else {
            None
        };
        if let Some(kind) = one {
            self.add_token(kind, line, String::new());
            return Ok(());
        }
        let pair: Option<(TokenKind, TokenKind)> = if c == '!' {
            Some((TokenKind::Bang, TokenKind::BangEqual))
        } else if c == '=' {
            Some((TokenKind::Equal, TokenKind::EqualEqual))
        } else if c == '<' {
            Some((TokenKind::Less, TokenKind::LessEqual))
        } else if c == '>' {
            Some((TokenKind::Greater, TokenKind::GreaterEqual))
        } else {
            None
        };
        if let Some((alone, with_equal)) = pair {
            if self.matches('=') {
                self.add_token(with_equal, line, String::new());
            } else {
                self.add_token(alone, line, String::new());
            }
            return Ok(());
        }
        if c == '/' {
            if self.matches('/') {
                let ghost from = self.current as int;
                while !self.peek_is('\n') && !self.is_at_end()
                    invariant
                        self.wf(),
                        self.source@ == old(self).source@,
                        self.line == old(self).line,
                        self.tokens@ == old(self).tokens@,
                        from <= self.current <= self.source@.len(),
                        comment_run(self.source@, self.current as int) == comment_run(
                            self.source@,
                            from,
                        ),
                    decreases self.source@.len() - self.current,
                {
                    self.advance();
                }
            } else {
                self.add_token(TokenKind::Slash, line, String::new());
            }
            Ok(())
        } else if c == ' ' || c == '\r' || c == '\t' {
            Ok(())
        } else if c == '\n' {
            self.line = self.line + 1;
            Ok(())
        } else if c == '"' {
            self.process_string()
        } else if Self::is_digit(c) {
            self.process_number();
            Ok(())
        } else if Self::is_alpha(c) {
            self.process_identifier();
            Ok(())
        } else {
            Err(self.err(line, "Unexpected character."))
        }
    }

    fn process_string(&mut self) -> (r: RloxResult<()>)
        requires
            old(self).wf(),
            old(self).current == old(self).start + 1,
            old(self).line <= old(self).start + 1,
            old(self).source@[old(self).start as int] == '"',
        ensures
            final(self).source@ == old(self).source@,
            match lex_at(old(self).source@, old(self).start as int, old(self).line as nat) {
                Lexed::Fail(d) => r is Err && r->Err_0@ == d,
                Lexed::Emit { kind, next, line, literal } => {
                    &&& r is Ok
                    &&& final(self).wf()
                    &&& final(self).current == next
                    &&& final(self).line == line
                    &&& tokens_view(final(self).tokens@) == tokens_view(old(self).tokens@).push(
                        TokenModel {
                            kind,
                            line: old(self).line as nat,
                            lexeme: old(self).source@.subrange(old(self).start as int, next),
                            literal,
                        },
                    )
                },
                _ => false,
            },
    {
        let ghost s = self.source@;
        let ghost from = self.current as int;
        let start_line = self.line;
        proof {
            lemma_run_end(s, from, |c: char| c != '"');
        }
        while !self.peek_is('"') && !self.is_at_end()
            invariant
                self.source@ == s,
                self.start == from - 1,
                self.tokens@ == old(self).tokens@,
                from <= self.current <= string_run(s, from) <= s.len(),
                s.len() < usize::MAX,
                1 <= start_line <= self.start + 1,
                self.current <= self.source@.len(),
                self.line == start_line + newlines(s, from, self.current as int),
                string_run(s, self.current as int) == string_run(s, from),
            decreases s.len() - self.current,
        {
            proof {
                lemma_newlines_bound(s, from, self.current as int);
                lemma_run_end(s, self.current as int + 1, |c: char| c != '"');
            }
            if self.peek_is('\n') {
                self.line = self.line + 1;
            }
            self.advance();
        }
        if self.is_at_end() {
            return Err(self.err(start_line, "Unterminated string"));
        }
        proof {
            lemma_newlines_bound(s, from, self.current as int);
        }
        self.advance();
        let literal = string_from_range(&self.source, self.start + 1, self.current - 1);
        self.add_token(TokenKind::String, start_line, literal);
        Ok(())
    }

    fn process_number(&mut self)
        requires
            old(self).wf(),
            old(self).current == old(self).start + 1,
            is_digit(old(self).source@[old(self).start as int]),
        ensures
            final(self).source@ == old(self).source@,
            match lex_at(old(self).source@, old(self).start as int, old(self).line as nat) {
                Lexed::Emit { kind, next, line, literal } => {
                    &&& final(self).wf()
                    &&& final(self).current == next
                    &&& final(self).line == line
                    &&& tokens_view(final(self).tokens@) == tokens_view(old(self).tokens@).push(
                        TokenModel {
                            kind,
                            line: old(self).line as nat,
                            lexeme: old(self).source@.subrange(old(self).start as int, next),
                            literal,
                        },
                    )
                },
                _ => false,
            },
    {
        let ghost s = self.source@;
        let ghost from = self.current as int;
        proof {
            lemma_run_end(s, from, |c: char| is_digit(c));
        }
        self.skip_digits();
        let ghost e = self.current as int;
        if self.peek_is('.') {
            if let Some(c) = self.peek_next() {
                if Self::is_digit(c) {
                    self.advance();
                    proof {
                        lemma_run_end(s, e + 1, |c: char| is_digit(c));
                        assert(digit_run(s, e + 1) == digit_run(s, e + 2));
                    }
                    self.skip_digits();
                }
            }
        }
        let literal = string_from_range(&self.source, self.start, self.current);
        let line = self.line;
        self.add_token(TokenKind::Number, line, literal);
    }

    /// Moves `current` past a run of digits.
    fn skip_digits(&mut self)
        requires
            old(self).wf(),
        ensures
            final(self).wf(),
            final(self).source@ == old(self).source@,
            final(self).tokens@ == old(self).tokens@,
            final(self).start == old(self).start,
            final(self).line == old(self).line,
            final(self).current == digit_run(old(self).source@, old(self).current as int),
    {
        let ghost from = self.current as int;
        proof {
            lemma_run_end(self.source@, from, |c: char| is_digit(c));
        }
        while self.current < self.source.len() && Self::is_digit(self.source[self.current])
            invariant
                self.wf(),
                self.source@ == old(self).source@,
                self.tokens@ == old(self).tokens@,
                self.start == old(self).start,
                self.line == old(self).line,
                from <= self.current,
                digit_run(self.source@, self.current as int) == digit_run(self.source@, from),
            decreases self.source@.len() - self.current,
        {
            self.current = self.current + 1;
        }
    }

    fn process_identifier(&mut self)
        requires
            old(self).wf(),
            old(self).current == old(self).start + 1,
            is_alpha(old(self).source@[old(self).start as int]),
        ensures
            final(self).source@ == old(self).source@,
            match lex_at(old(self).source@, old(self).start as int, old(self).line as nat) {
                Lexed::Emit { kind, next, line, literal } => {
                    &&& final(self).wf()
                    &&& final(self).current == next
                    &&& final(self).line == line
                    &&& tokens_view(final(self).tokens@) == tokens_view(old(self).tokens@).push(
                        TokenModel {
                            kind,
                            line: old(self).line as nat,
                            lexeme: old(self).source@.subrange(old(self).start as int, next),
                            literal,
                        },
                    )
                },
                _ => false,
            },
    {
        let ghost s = self.source@;
        let ghost from = self.current as int;
        proof {
            lemma_run_end(s, from, |c: char| is_alpha_numeric(c));
        }
        while self.current < self.source.len() && Self::is_alpha_numeric(self.source[self.current])
            invariant
                self.wf(),
                self.source@ == s,
                self.tokens@ == old(self).tokens@,
                self.start == old(self).start,
                self.line == old(self).line,
                from <= self.current,
                word_run(s, self.current as int) == word_run(s, from),
            decreases s.len() - self.current,
        {
            self.current = self.current + 1;
        }
        let word = self.source_range(self.start, self.current);
        let kind = keyword(&word);
        let literal = if kind == TokenKind::Identifier {
            string_from_range(&self.source, self.start, self.current)
        } else {
            String::new()
        };
        let line = self.line;
        self.add_token(kind, line, literal);
    }

    /// The characters `source[from..to]`.
    fn source_range(&self, from: usize, to: usize) -> (r: Vec<char>)
        requires
            from <= to <= self.source@.len(),
        ensures
            r@ == self.source@.subrange(from as int, to as int),
    {
        let mut out: Vec<char> = Vec::new();
        let mut i = from;
        while i < to
            invariant
                from <= i <= to <= self.source@.len(),
                out@ == self.source@.subrange(from as int, i as int),
            decreases to - i,
        {
            out.push(self.source[i]);
            i = i + 1;
            assert(out@ =~= self.source@.subrange(from as int, i as int));
        }
        out
    }

    /// Appends a token of `kind` on `line` whose lexeme is `source[start..current]`.
    fn add_token(&mut self, kind: TokenKind, line: usize, literal: String)
        requires
            old(self).start <= old(self).current <= old(self).source@.len(),
        ensures
            final(self).source@ == old(self).source@,
            final(self).current == old(self).current,
            final(self).start == old(self).start,
            final(self).line == old(self).line,
            tokens_view(final(self).tokens@) == tokens_view(old(self).tokens@).push(
                TokenModel {
                    kind,
                    line: line as nat,
                    lexeme: old(self).source@.subrange(
                        old(self).start as int,
                        old(self).current as int,
                    ),
                    literal: literal@,
                },
            ),
    {
        let lexeme = string_from_range(&self.source, self.start, self.current);
        self.tokens.push(Token { kind, line, lexeme, literal });
        assert(tokens_view(self.tokens@) =~= tokens_view(old(self).tokens@).push(
            self.tokens@.last()@,
        ));
    }

    fn advance(&mut self) -> (r: char)
        requires
            old(self).current < old(self).source@.len() < usize::MAX,
        ensures
            r == old(self).source@[old(self).current as int],
            final(self).current == old(self).current + 1,
            final(self).source@ == old(self).source@,
            final(self).tokens@ == old(self).tokens@,
            final(self).start == old(self).start,
            final(self).line == old(self).line,
    {
        let c = self.source[self.current];
        self.current = self.current + 1;
        c
    }

    /// Whether the next character is `c`.
    fn peek_is(&self, c: char) -> (r: bool)
        ensures
            r == (self.current < self.source@.len() && self.source@[self.current as int] == c),
    {
        self.current < self.source.len() && self.source[self.current] == c
    }

    fn peek_next(&self) -> (r: Option<char>)
        requires
            self.current < usize::MAX,
        ensures
            self.current + 1 < self.source@.len() ==> r == Some(
                self.source@[self.current as int + 1],
            ),
            self.current + 1 >= self.source@.len() ==> r is None,
    {
        if self.current + 1 >= self.source.len() {
            None
        } else {
            Some(self.source[self.current + 1])
        }
    }

    /// Consumes the next character when it is `expected`.
    fn matches(&mut self, expected: char) -> (r: bool)
        requires
            old(self).source@.len() < usize::MAX,
        ensures
            r == (old(self).current < old(self).source@.len() && old(self).source@[old(
                self,
            ).current as int] == expected),
            final(self).current == if r {
                old(self).current + 1
            } else {
                old(self).current as int
            },
            final(self).source@ == old(self).source@,
            final(self).tokens@ == old(self).tokens@,
            final(self).start == old(self).start,
            final(self).line == old(self).line,
    {
        if self.peek_is(expected) {
            self.advance();
            true
        } else {
            false
        }
    }

    fn is_digit(c: char) -> (r: bool)
        ensures
            r == is_digit(c),
    {
        '0' <= c && c <= '9'
    }

    fn is_alpha(c: char) -> (r: bool)
        ensures
            r == is_alpha(c),
    {
        ('a' <= c && c <= 'z') || ('A' <= c && c <= 'Z') || c == '_'
    }

    fn is_alpha_numeric(c: char) -> (r: bool)
        ensures
            r == is_alpha_numeric(c),
    {
        Self::is_alpha(c) || Self::is_digit(c)
    }

    fn err(&self, line: usize, msg: &str) -> (r: Error)
        ensures
            r@ == diagnostic(Stage::Scanner, line as nat, msg@),
    {
        Error::Scanner(line, String::from_str(msg))
    }
}

} // verus!

verus! {

/// A run inside `s[a..b]` ends where the run in `s` ends, or at `b`.
pub proof fn lemma_run_end_within(s: Seq<char>, a: int, b: int, j: int, p: spec_fn(char) -> bool)
    requires
        0 <= a <= j <= b <= s.len(),
    ensures
        run_end(s.subrange(a, b), j - a, p) == (if run_end(s, j, p) < b {
            run_end(s, j, p)
        } else {
            b
        }) - a,
    decreases b - j,
{
    lemma_run_end(s, j, p);
    if j < b {
        if p(s[j]) {
            lemma_run_end_within(s, a, b, j + 1, p);
        }
    }
}

/// Whether scanning the lexeme of `t` alone gives `t` back (on line 1),
/// followed only by the end of input.
pub open spec fn rescans(t: TokenModel) -> bool {
    &&& scan_spec(t.lexeme) is Ok
    &&& scan_spec(t.lexeme)->Ok_0.len() == 2
    &&& scan_spec(t.lexeme)->Ok_0[0] == (TokenModel { line: 1, ..t })
}

proof fn lemma_lex_rescan(
    s: Seq<char>,
    i: int,
    line: nat,
    kind: TokenKind,
    next: int,
    after: nat,
    literal: Seq<char>,
)
    requires
        0 <= i < s.len(),
        lex_at(s, i, line) == (Lexed::Emit { kind, next, line: after, literal }),
    ensures
        rescans(TokenModel { kind, line, lexeme: s.subrange(i, next), literal }),
{
    lemma_lex_advances(s, i, line);
    let c = s[i];
    let w = s.subrange(i, next);
    let empty = Seq::<char>::empty();
    assert(w[0] == c);
    if single_kind(c) is Some {
    } else if pair_kinds(c) is Some {
    } else if c == '/' {
    } else if c == '"' {
        let q = string_run(s, i + 1);
        lemma_run_end_within(s, i, q + 1, i + 1, |c: char| c != '"');
        lemma_run_end(s, i + 1, |c: char| c != '"');
        assert(w.subrange(1, q - i) =~= s.subrange(i + 1, q));
    } else if is_digit(c) {
        let d = digit_run(s, i + 1);
        lemma_run_end(s, i + 1, |c: char| is_digit(c));
        lemma_run_end_within(s, i, next, i + 1, |c: char| is_digit(c));
        if d + 1 < s.len() && s[d] == '.' && is_digit(s[d + 1]) {
            lemma_run_end(s, d + 1, |c: char| is_digit(c));
            lemma_run_end_within(s, i, next, d + 1, |c: char| is_digit(c));
            assert(w[d - i] == s[d]);
            assert(w[d - i + 1] == s[d + 1]);
        }
        assert(w.subrange(0, next - i) =~= w);
    } else if is_alpha(c) {
        lemma_run_end(s, i + 1, |c: char| is_alpha_numeric(c));
        lemma_run_end_within(s, i, next, i + 1, |c: char| is_alpha_numeric(c));
        assert(w.subrange(0, next - i) =~= w);
    }
    match lex_at(w, 0, 1) {
        Lexed::Emit { kind: k2, next: n2, line: l2, literal: lit2 } => {
            assert(k2 == kind && n2 == w.len() && lit2 == literal);
            assert(w.subrange(0, w.len() as int) =~= w);
            assert(scan_from(w, w.len() as int, l2) == Ok::<_, Diagnostic>(
                seq![TokenModel { kind: TokenKind::EOF, line: l2, lexeme: Seq::empty(), literal: Seq::empty() }],
            ));
        },
        _ => {
            assert(false);
        },
    }
}

proof fn lemma_scan_from_rescans(s: Seq<char>, i: int, line: nat)
    ensures
        scan_from(s, i, line) matches Ok(ts) ==> forall|k: int|
            0 <= k < ts.len() - 1 ==> #[trigger] rescans(ts[k]),
    decreases s.len() - i,
{
    if 0 <= i < s.len() {
        lemma_lex_advances(s, i, line);
        match lex_at(s, i, line) {
            Lexed::Skip { next, line } => lemma_scan_from_rescans(s, next, line),
            Lexed::Emit { kind, next, line: after, literal } => {
                lemma_scan_from_rescans(s, next, after);
                lemma_lex_rescan(s, i, line, kind, next, after, literal);
                match scan_from(s, next, after) {
                    Ok(rest) => {
                        let t = TokenModel { kind, line, lexeme: s.subrange(i, next), literal };
                        let ts = seq![t] + rest;
                        assert forall|k: int| 0 <= k < ts.len() - 1 implies #[trigger] rescans(
                            ts[k],
                        ) by {
                            if k > 0 {
                                assert(ts[k] == rest[k - 1]);
                            }
                        }
                    },
                    Err(_) => {},
                }
            },
            Lexed::Fail(_) => {},
        }
    }
}

/// Re-scanning the lexeme of any token the scanner produced, but the end of
/// input, gives back a token of the same kind, lexeme and payload (on line
/// 1), followed only by the end of input.
pub proof fn law_rescanning_a_lexeme_gives_the_same_token(source: Seq<char>, k: int)
    requires
        scan_spec(source) is Ok,
        0 <= k < scan_spec(source)->Ok_0.len() - 1,
    ensures
        scan_spec(scan_spec(source)->Ok_0[k].lexeme) is Ok,
        scan_spec(scan_spec(source)->Ok_0[k].lexeme)->Ok_0.len() == 2,
        scan_spec(scan_spec(source)->Ok_0[k].lexeme)->Ok_0[0].kind == scan_spec(source)->Ok_0[k].kind,
        scan_spec(scan_spec(source)->Ok_0[k].lexeme)->Ok_0[0].lexeme == scan_spec(source)->Ok_0[k].lexeme,
        scan_spec(scan_spec(source)->Ok_0[k].lexeme)->Ok_0[0].literal == scan_spec(source)->Ok_0[k].literal,
{
    lemma_scan_from_rescans(source, 0, 1);
    assert(rescans(scan_spec(source)->Ok_0[k]));
}

} // verus!
