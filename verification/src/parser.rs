//! The character scanner: one file's text to its positioned tokens and the
//! imports it asks for.

use vstd::prelude::*;
use vstd::std_specs::iter::IteratorSpec;
use vstd::string::StringExecFns;
use crate::common::{Value, ValueView};
use crate::table::{merged, put, ParsedFile};
use crate::text::{location, location_text, is_float, is_float_literal, integer_literal, make_string, parse_integer, spells, trim, trimmed};

verus! {

broadcast use vstd::string::group_string_axioms;

#[derive(Debug, Clone, PartialEq, Eq)]
pub enum Token {
    Def,
    Symbol(String),
    Value(Value),
    End,
    Var,
    Ret,
    Eq,
    Ne,
    If,
    Else,
    LBrace,
    RBrace,
    Add,
    Minus,
    Times,
    Divide,
    Comma,
    Assign,
    NewLine,
    While,
}

/// What a `Token` stands for.
pub enum TokenView {
    Def,
    Symbol(Seq<char>),
    Value(ValueView),
    End,
    Var,
    Ret,
    Eq,
    Ne,
    If,
    Else,
    LBrace,
    RBrace,
    Add,
    Minus,
    Times,
    Divide,
    Comma,
    Assign,
    NewLine,
    While,
}

impl View for Token {
    type V = TokenView;

    open spec fn view(&self) -> TokenView {
        match *self {
            Token::Def => TokenView::Def,
            Token::Symbol(s) => TokenView::Symbol(s@),
            Token::Value(v) => TokenView::Value(v@),
            Token::End => TokenView::End,
            Token::Var => TokenView::Var,
            Token::Ret => TokenView::Ret,
            Token::Eq => TokenView::Eq,
            Token::Ne => TokenView::Ne,
            Token::If => TokenView::If,
            Token::Else => TokenView::Else,
            Token::LBrace => TokenView::LBrace,
            Token::RBrace => TokenView::RBrace,
            Token::Add => TokenView::Add,
            Token::Minus => TokenView::Minus,
            Token::Times => TokenView::Times,
            Token::Divide => TokenView::Divide,
            Token::Comma => TokenView::Comma,
            Token::Assign => TokenView::Assign,
            Token::NewLine => TokenView::NewLine,
            Token::While => TokenView::While,
        }
    }
}

/// A file's tokens as the contracts see them: each with its line.
pub open spec fn positioned(v: Seq<(u64, Token)>) -> Seq<(int, TokenView)> {
    Seq::new(v.len(), |i: int| (v[i].0 as int, v[i].1@))
}

/// An import that a file asks for: the module's name and the line it stands on.
#[derive(Debug, Clone, PartialEq, Eq)]
pub struct Import {
    pub line: u64,
    pub module: String,
}

/// The imports of a file as the contracts see them.
pub open spec fn requested(v: Seq<Import>) -> Seq<(int, Seq<char>)> {
    Seq::new(v.len(), |i: int| (v[i].line as int, v[i].module@))
}

/// What the scanner is reading.
#[derive(Debug, Clone, Copy, PartialEq, Eq)]
pub enum Mode {
    Normal,
    InString,
    InImportTarget,
}

/// The scanner between two characters, as the contracts see it.
pub struct ScanState {
    pub mode: Mode,
    pub collector: Seq<char>,
    pub line: int,
    pub tokens: Seq<(int, TokenView)>,
    pub imports: Seq<(int, Seq<char>)>,
}

impl ScanState {
    /// The scanner before the first character.
    pub open spec fn start() -> ScanState {
        ScanState {
            mode: Mode::Normal,
            collector: Seq::empty(),
            line: 1,
            tokens: Seq::empty(),
            imports: Seq::empty(),
        }
    }

    /// The state with `t` added on the current line.
    pub open spec fn emit(self, t: TokenView) -> ScanState {
        ScanState { tokens: self.tokens.push((self.line, t)), ..self }
    }

    /// The state with an empty collector.
    pub open spec fn clear(self) -> ScanState {
        ScanState { collector: Seq::empty(), ..self }
    }

    /// The state with the keyword in the collector, if it holds one, taken
    /// out: its token added, or for `imp` the import target begun.
    pub open spec fn recognise(self) -> ScanState {
        match keyword(self.collector) {
            Some(Keyword::Word(t)) => self.clear().emit(t),
            Some(Keyword::Import) => ScanState { mode: Mode::InImportTarget, ..self.clear() },
            None => self,
        }
    }

    /// The state at a boundary: what the collector holds, if anything, is
    /// classified and added as one token.
    pub open spec fn flush(self) -> ScanState {
        if self.collector.len() > 0 {
            self.emit(classified(self.collector)).clear()
        } else {
            self
        }
    }

    /// The state after one more character.
    pub open spec fn step(self, c: char) -> ScanState {
        match self.mode {
            Mode::InImportTarget => {
                if c != '\n' {
                    ScanState { collector: self.collector.push(c), ..self }
                } else {
                    ScanState {
                        mode: Mode::Normal,
                        collector: Seq::empty(),
                        imports: self.imports.push((self.line, trimmed(self.collector))),
                        ..self
                    }
                }
            },
            Mode::InString => {
                if c == '"' && !ends_with_backslash(self.collector) {
                    ScanState {
                        mode: Mode::Normal,
                        ..self.emit(TokenView::Value(ValueView::String(self.collector))).clear()
                    }
                } else {
                    ScanState { collector: self.collector.push(c), ..self }
                }
            },
            Mode::Normal => {
                match punctuation(c) {
                    Some(t) => self.flush().emit(t),
                    None => {
                        if c == '"' {
                            ScanState { mode: Mode::InString, ..self }
                        } else {
                            let s = ScanState {
                                collector: trimmed(self.collector.push(c)),
                                ..self
                            }.recognise();
                            if c == '\n' {
                                let t = s.flush().emit(TokenView::NewLine);
                                ScanState { line: t.line + 1, ..t }
                            } else if c == ' ' || c == '\t' {
                                s.flush()
                            } else {
                                s
                            }
                        }
                    },
                }
            },
        }
    }

    /// The state after the characters of `text`, one after the other.
    pub open spec fn run(self, text: Seq<char>) -> ScanState
        decreases text.len(),
    {
        if text.len() == 0 {
            self
        } else {
            self.step(text[0]).run(text.drop_first())
        }
    }
}

/// Whether the last character of `s` is a backslash.
pub open spec fn ends_with_backslash(s: Seq<char>) -> bool {
    s.len() > 0 && s.last() == '\\'
}

/// What a keyword does when the collector spells it.
pub enum Keyword {
    /// It is a token.
    Word(TokenView),
    /// It begins an import.
    Import,
}

/// The keyword that `s` spells, if it spells one.
pub open spec fn keyword(s: Seq<char>) -> Option<Keyword> {
    if s == "def"@ {
        Some(Keyword::Word(TokenView::Def))
    } else if s == "end"@ {
        Some(Keyword::Word(TokenView::End))
    } else if s == "var"@ {
        Some(Keyword::Word(TokenView::Var))
    } else if s == "ret"@ {
        Some(Keyword::Word(TokenView::Ret))
    } else if s == "if"@ {
        Some(Keyword::Word(TokenView::If))
    } else if s == "else"@ {
        Some(Keyword::Word(TokenView::Else))
    } else if s == "imp"@ {
        Some(Keyword::Import)
    } else if s == "true"@ {
        Some(Keyword::Word(TokenView::Value(ValueView::Boolean(true))))
    } else if s == "false"@ {
        Some(Keyword::Word(TokenView::Value(ValueView::Boolean(false))))
    } else if s == "while"@ {
        Some(Keyword::Word(TokenView::While))
    } else {
        None
    }
}

/// The token of a punctuation character.
pub open spec fn punctuation(c: char) -> Option<TokenView> {
    if c == '(' {
        Some(TokenView::LBrace)
    } else if c == ')' {
        Some(TokenView::RBrace)
    } else if c == ',' {
        Some(TokenView::Comma)
    } else if c == '+' {
        Some(TokenView::Add)
    } else if c == '-' {
        Some(TokenView::Minus)
    } else if c == '*' {
        Some(TokenView::Times)
    } else if c == '/' {
        Some(TokenView::Divide)
    } else {
        None
    }
}

/// The token that the collector's content is at a boundary: a floating-point
/// literal, else an integer literal that fits in 128 bits, else one of `=`,
/// `==`, `!=`, else a symbol.
pub open spec fn classified(s: Seq<char>) -> TokenView {
    if is_float_literal(s) {
        TokenView::Value(ValueView::FloatingPointInteger(s))
    } else if integer_literal(s) is Some {
        TokenView::Value(ValueView::Integer(integer_literal(s).unwrap()))
    } else if s == "="@ {
        TokenView::Assign
    } else if s == "=="@ {
        TokenView::Eq
    } else if s == "!="@ {
        TokenView::Ne
    } else {
        TokenView::Symbol(s)
    }
}

/// The token of `c`, where `c` is a punctuation character.
pub fn punctuation_token(c: char) -> (r: Option<Token>)
    ensures
        r is Some <==> punctuation(c) is Some,
        r is Some ==> r.unwrap()@ == punctuation(c).unwrap(),
{
    if c == '(' {
        Some(Token::LBrace)
    } else if c == ')' {
        Some(Token::RBrace)
    } else if c == ',' {
        Some(Token::Comma)
    } else if c == '+' {
        Some(Token::Add)
    } else if c == '-' {
        Some(Token::Minus)
    } else if c == '*' {
        Some(Token::Times)
    } else if c == '/' {
        Some(Token::Divide)
    } else {
        None
    }
}

/// The token that the collector's content is at a boundary.
pub fn classify(collector: &Vec<char>) -> (t: Token)
    ensures
        t@ == classified(collector@),
{
    if is_float(collector) {
        return Token::Value(Value::FloatingPointInteger(make_string(collector)));
    }
    match parse_integer(collector) {
        Some(n) => Token::Value(Value::Integer(n)),
        None => {
            if spells(collector, "=") {
                Token::Assign
            } else if spells(collector, "==") {
                Token::Eq
            } else if spells(collector, "!=") {
                Token::Ne
            } else {
                Token::Symbol(make_string(collector))
            }
        },
    }
}

/// The scanner of one file: feed it the text character by character.
#[derive(Debug)]
pub struct Scanner {
    pub mode: Mode,
    pub collector: Vec<char>,
    pub line: u64,
    pub tokens: Vec<(u64, Token)>,
    pub imports: Vec<Import>,
}

impl View for Scanner {
    type V = ScanState;

    open spec fn view(&self) -> ScanState {
        ScanState {
            mode: self.mode,
            collector: self.collector@,
            line: self.line as int,
            tokens: positioned(self.tokens@),
            imports: requested(self.imports@),
        }
    }
}

impl Scanner {
    /// A scanner before the first character, on line 1.
    pub fn new() -> (r: Scanner)
        ensures
            r@ == ScanState::start(),
    {
        let r = Scanner {
            mode: Mode::Normal,
            collector: Vec::new(),
            line: 1,
            tokens: Vec::new(),
            imports: Vec::new(),
        };
        proof {
            assert(positioned(r.tokens@) =~= Seq::empty());
            assert(requested(r.imports@) =~= Seq::empty());
        }
        r
    }

    fn emit(&mut self, t: Token)
        ensures
            final(self)@ == old(self)@.emit(t@),
    {
        self.tokens.push((self.line, t));
        proof {
            assert(positioned(self.tokens@) =~= positioned(old(self).tokens@).push(
                (self.line as int, t@),
            ));
        }
    }

    fn flush(&mut self)
        ensures
            final(self)@ == old(self)@.flush(),
    {
        if self.collector.len() > 0 {
            let t = classify(&self.collector);
            self.emit(t);
            self.collector = Vec::new();
        }
    }

    fn recognise(&mut self)
        ensures
            final(self)@ == old(self)@.recognise(),
    {
        if spells(&self.collector, "def") {
            self.collector = Vec::new();
            self.emit(Token::Def);
        } else if spells(&self.collector, "end") {
            self.collector = Vec::new();
            self.emit(Token::End);
        } else if spells(&self.collector, "var") {
            self.collector = Vec::new();
            self.emit(Token::Var);
        } else if spells(&self.collector, "ret") {
            self.collector = Vec::new();
            self.emit(Token::Ret);
        } else if spells(&self.collector, "if") {
            self.collector = Vec::new();
            self.emit(Token::If);
        } else if spells(&self.collector, "else") {
            self.collector = Vec::new();
            self.emit(Token::Else);
        } else if spells(&self.collector, "imp") {
            self.collector = Vec::new();
            self.mode = Mode::InImportTarget;
        } else if spells(&self.collector, "true") {
            self.collector = Vec::new();
            self.emit(Token::Value(Value::Boolean(true)));
        } else if spells(&self.collector, "false") {
            self.collector = Vec::new();
            self.emit(Token::Value(Value::Boolean(false)));
        } else if spells(&self.collector, "while") {
            self.collector = Vec::new();
            self.emit(Token::While);
        }
    }

    /// Takes the next character of the text.
    pub fn feed(&mut self, c: char)
        requires
            old(self).line < u64::MAX,
        ensures
            final(self)@ == old(self)@.step(c),
            final(self).line <= old(self).line + 1,
    {
        match self.mode {
            Mode::InImportTarget => {
                if c != '\n' {
                    self.collector.push(c);
                } else {
                    let name = trim(&self.collector);
                    self.imports.push(Import { line: self.line, module: make_string(&name) });
                    self.collector = Vec::new();
                    self.mode = Mode::Normal;
                    proof {
                        assert(requested(self.imports@) =~= requested(old(self).imports@).push(
                            (self.line as int, trimmed(old(self).collector@)),
                        ));
                    }
                }
            },
            Mode::InString => {
                let n: usize = self.collector.len();
                let escaped = n > 0 && self.collector[n - 1] == '\\';
                if c == '"' && !escaped {
                    let text = make_string(&self.collector);
                    self.emit(Token::Value(Value::String(text)));
                    self.collector = Vec::new();
                    self.mode = Mode::Normal;
                } else {
                    self.collector.push(c);
                }
            },
            Mode::Normal => {
                match punctuation_token(c) {
                    Some(t) => {
                        self.flush();
                        self.emit(t);
                    },
                    None => {
                        if c == '"' {
                            self.mode = Mode::InString;
                        } else {
                            self.collector.push(c);
                            self.collector = trim(&self.collector);
                            self.recognise();
                            if c == '\n' {
                                self.flush();
                                self.emit(Token::NewLine);
                                self.line = self.line + 1;
                            } else if c == ' ' || c == '\t' {
                                self.flush();
                            }
                        }
                    },
                }
            },
        }
    }
}

/// What scanning one file gives: its tokens, each with its line, and the
/// imports it asks for, in the order of the text.
#[derive(Debug)]
pub struct Scanned {
    pub tokens: Vec<(u64, Token)>,
    pub imports: Vec<Import>,
}

/// Scans the text of one file. What stands in the collector at the end of the
/// text is dropped.
pub fn parse(source: &String) -> (r: Scanned)
    requires
        source@.len() < u64::MAX,
    ensures
        positioned(r.tokens@) == ScanState::start().run(source@).tokens,
        requested(r.imports@) == ScanState::start().run(source@).imports,
{
    let mut scanner = Scanner::new();
    proof {
        assert(source@.skip(0) =~= source@);
    }
    for c in it: source.as_str().chars()
        invariant
            it.seq() == source@,
            source@.len() < u64::MAX,
            scanner.line <= it.index() + 1,
            ScanState::start().run(source@) == scanner@.run(source@.skip(it.index() as int)),
    {
        proof {
            let rest = source@.skip(it.index() as int);
            assert(rest.drop_first() =~= source@.skip(it.index() + 1));
        }
        scanner.feed(c);
    }
    Scanned { tokens: scanner.tokens, imports: scanner.imports }
}

/// What scanning a text gives: the tokens and the imports of the state after
/// its last character.
pub open spec fn is_scan_of(r: Scanned, text: Seq<char>) -> bool {
    &&& positioned(r.tokens@) == ScanState::start().run(text).tokens
    &&& requested(r.imports@) == ScanState::start().run(text).imports
}

/// Scanning depends on the text alone: two scans of one text hold the same
/// tokens on the same lines and ask for the same imports.
pub proof fn lemma_same_text_same_scan(a: Scanned, b: Scanned, text: Seq<char>)
    requires
        is_scan_of(a, text),
        is_scan_of(b, text),
    ensures
        positioned(a.tokens@) == positioned(b.tokens@),
        requested(a.imports@) == requested(b.imports@),
{
}

/// Scanning a text in two parts, the second from where the first ended, is
/// scanning the whole.
pub proof fn lemma_run_in_parts(s: ScanState, first: Seq<char>, second: Seq<char>)
    ensures
        s.run(first + second) == s.run(first).run(second),
    decreases first.len(),
{
    if first.len() == 0 {
        assert(first + second =~= second);
    } else {
        assert((first + second).drop_first() =~= first.drop_first() + second);
        lemma_run_in_parts(s.step(first[0]), first.drop_first(), second);
    }
}

/// The number of line-terminator tokens among `tokens`.
pub open spec fn newlines(tokens: Seq<(int, TokenView)>) -> nat
    decreases tokens.len(),
{
    if tokens.len() == 0 {
        0
    } else {
        newlines(tokens.drop_last()) + if tokens.last().1 is NewLine {
            1nat
        } else {
            0nat
        }
    }
}

/// Whether every token stands on the line that the line terminators before it
/// give, the first line being line 1, and the scanner is on the line after
/// the last of them.
pub open spec fn lines_follow(s: ScanState) -> bool {
    &&& s.line == 1 + newlines(s.tokens)
    &&& forall|i: int|
        0 <= i < s.tokens.len() ==> (#[trigger] s.tokens[i]).0 == 1 + newlines(s.tokens.take(i))
}

/// A token that is no line terminator, added on the current line, keeps the
/// lines in step.
pub proof fn lemma_emit_keeps_lines(s: ScanState, t: TokenView)
    requires
        lines_follow(s),
        !(t is NewLine),
    ensures
        lines_follow(s.emit(t)),
{
    let after = s.emit(t).tokens;
    assert(after.drop_last() =~= s.tokens);
    assert forall|i: int| 0 <= i < after.len() implies (#[trigger] after[i]).0 == 1 + newlines(
        after.take(i),
    ) by {
        if i < s.tokens.len() {
            assert(after.take(i) =~= s.tokens.take(i));
        } else {
            assert(after.take(i) =~= s.tokens);
        }
    }
}

/// A line terminator, added on the current line with the line then counted
/// up by one, keeps the lines in step.
pub proof fn lemma_newline_keeps_lines(s: ScanState)
    requires
        lines_follow(s),
    ensures
        lines_follow(ScanState { line: s.line + 1, ..s.emit(TokenView::NewLine) }),
{
    let after = s.emit(TokenView::NewLine).tokens;
    assert(after.drop_last() =~= s.tokens);
    assert forall|i: int| 0 <= i < after.len() implies (#[trigger] after[i]).0 == 1 + newlines(
        after.take(i),
    ) by {
        if i < s.tokens.len() {
            assert(after.take(i) =~= s.tokens.take(i));
        } else {
            assert(after.take(i) =~= s.tokens);
        }
    }
}

/// Taking a keyword out of the collector keeps the lines in step.
pub proof fn lemma_recognise_keeps_lines(s: ScanState)
    requires
        lines_follow(s),
    ensures
        lines_follow(s.recognise()),
{
    match keyword(s.collector) {
        Some(Keyword::Word(t)) => {
            lemma_emit_keeps_lines(s.clear(), t);
        },
        _ => {},
    }
}

/// Classifying the collector at a boundary keeps the lines in step.
pub proof fn lemma_flush_keeps_lines(s: ScanState)
    requires
        lines_follow(s),
    ensures
        lines_follow(s.flush()),
{
    if s.collector.len() > 0 {
        lemma_emit_keeps_lines(s, classified(s.collector));
    }
}

/// One more character keeps the lines in step.
pub proof fn lemma_step_keeps_lines(s: ScanState, c: char)
    requires
        lines_follow(s),
    ensures
        lines_follow(s.step(c)),
{
    match s.mode {
        Mode::InImportTarget => {},
        Mode::InString => {
            if c == '"' && !ends_with_backslash(s.collector) {
                lemma_emit_keeps_lines(s, TokenView::Value(ValueView::String(s.collector)));
            }
        },
        Mode::Normal => {
            match punctuation(c) {
                Some(t) => {
                    lemma_flush_keeps_lines(s);
                    lemma_emit_keeps_lines(s.flush(), t);
                },
                None => {
                    if c != '"' {
                        let collected = ScanState {
                            collector: trimmed(s.collector.push(c)),
                            ..s
                        };
                        lemma_recognise_keeps_lines(collected);
                        lemma_flush_keeps_lines(collected.recognise());
                        lemma_newline_keeps_lines(collected.recognise().flush());
                    }
                },
            }
        },
    }
}

/// Scanning more text keeps the lines in step.
pub proof fn lemma_run_keeps_lines(s: ScanState, text: Seq<char>)
    requires
        lines_follow(s),
    ensures
        lines_follow(s.run(text)),
    decreases text.len(),
{
    if text.len() > 0 {
        lemma_step_keeps_lines(s, text[0]);
        lemma_run_keeps_lines(s.step(text[0]), text.drop_first());
    }
}

/// The line terminators among the first `i` tokens are among the first `j`.
pub proof fn lemma_newlines_grow(tokens: Seq<(int, TokenView)>, i: int, j: int)
    requires
        0 <= i <= j <= tokens.len(),
    ensures
        newlines(tokens.take(i)) <= newlines(tokens.take(j)),
        j < tokens.len() ==> newlines(tokens.take(j + 1)) == newlines(tokens.take(j)) + if tokens[j].1 is NewLine {
            1nat
        } else {
            0nat
        },
    decreases j - i,
{
    if j < tokens.len() {
        assert(tokens.take(j + 1).drop_last() =~= tokens.take(j));
    }
    if i < j {
        lemma_newlines_grow(tokens, i, j - 1);
        assert(tokens.take(j).drop_last() =~= tokens.take(j - 1));
    }
}

/// In the tokens of any text the first line is line 1, the lines never go
/// down, and from a token to the next the line goes up by one after a line
/// terminator and not at all after any other token.
pub proof fn lemma_lines_of_scan(text: Seq<char>, i: int, j: int)
    requires
        0 <= i <= j < ScanState::start().run(text).tokens.len(),
    ensures
        lines_follow(ScanState::start().run(text)),
        ScanState::start().run(text).tokens[0].0 == 1,
        ScanState::start().run(text).tokens[i].0 <= ScanState::start().run(text).tokens[j].0,
        j == i + 1 ==> ScanState::start().run(text).tokens[j].0 == ScanState::start().run(
            text,
        ).tokens[i].0 + if ScanState::start().run(text).tokens[i].1 is NewLine {
            1int
        } else {
            0int
        },
{
    let s = ScanState::start();
    assert(lines_follow(s));
    lemma_run_keeps_lines(s, text);
    let tokens = s.run(text).tokens;
    lemma_newlines_grow(tokens, i, j);
    lemma_newlines_grow(tokens, i, i);
    assert(tokens.take(0) =~= Seq::empty());
    assert(tokens[0].0 == 1 + newlines(tokens.take(0)));
    assert(tokens[i].0 == 1 + newlines(tokens.take(i)));
    assert(tokens[j].0 == 1 + newlines(tokens.take(j)));
}

/// A character moves the line on by one where it is a line terminator read
/// in normal mode, and not at all otherwise: not in a string, and not at the
/// end of an import.
pub proof fn lemma_line_moves_on_newline_only(s: ScanState, c: char)
    ensures
        s.step(c).line == s.line + if s.mode is Normal && c == '\n' {
            1int
        } else {
            0int
        },
{
}

/// Whether `t` is a text literal.
pub open spec fn is_text_literal(t: TokenView) -> bool {
    t is Value && t->Value_0 is String
}

/// Whether no token of `tokens` is a text literal.
pub open spec fn without_text_literal(tokens: Seq<(int, TokenView)>) -> bool {
    forall|i: int| 0 <= i < tokens.len() ==> !is_text_literal((#[trigger] tokens[i]).1)
}

/// Outside a string, a character other than the double quote adds no text
/// literal and begins no string.
pub proof fn lemma_step_without_quote(s: ScanState, c: char)
    requires
        !(s.mode is InString),
        c != '"',
        without_text_literal(s.tokens),
    ensures
        !(s.step(c).mode is InString),
        without_text_literal(s.step(c).tokens),
{
    if s.mode is Normal {
        match punctuation(c) {
            Some(t) => {
                assert(!is_text_literal(t));
                assert(!is_text_literal(classified(s.collector)));
            },
            None => {
                let collected = ScanState { collector: trimmed(s.collector.push(c)), ..s };
                let known = collected.recognise();
                match keyword(collected.collector) {
                    Some(Keyword::Word(t)) => {
                        assert(!is_text_literal(t));
                    },
                    _ => {},
                }
                assert(without_text_literal(known.tokens));
                assert(!is_text_literal(classified(known.collector)));
                assert(without_text_literal(known.flush().tokens));
            },
        }
    }
}

/// Outside a string, text without a double quote adds no text literal.
pub proof fn lemma_run_without_quote(s: ScanState, text: Seq<char>)
    requires
        !(s.mode is InString),
        !text.contains('"'),
        without_text_literal(s.tokens),
    ensures
        !(s.run(text).mode is InString),
        without_text_literal(s.run(text).tokens),
    decreases text.len(),
{
    if text.len() > 0 {
        assert(text.contains(text[0]));
        lemma_step_without_quote(s, text[0]);
        assert forall|c: char| text.drop_first().contains(c) implies text.contains(c) by {
            let i = choose|i: int| 0 <= i < text.drop_first().len() && text.drop_first()[i] == c;
            assert(text[i + 1] == c);
        }
        lemma_run_without_quote(s.step(text[0]), text.drop_first());
    }
}

/// A text without a double quote scans to tokens without a text literal.
pub proof fn lemma_text_literals_need_quotes(text: Seq<char>)
    requires
        !text.contains('"'),
    ensures
        without_text_literal(ScanState::start().run(text).tokens),
{
    lemma_run_without_quote(ScanState::start(), text);
}

/// An imported file could not be read.
#[derive(Debug)]
pub struct ParseError {
    pub line: u64,
    pub file: String,
    pub error: String,
}

/// The path of the file that an import of `module` names, for a file in the
/// directory `dir`: the file of that name in that directory, with the
/// extension of source files.
pub open spec fn import_path(dir: Seq<char>, module: Seq<char>) -> Seq<char> {
    dir + "/"@ + module + ".j"@
}

/// The path of the file that an import of `module` names, for a file in `dir`.
pub fn import_target(dir: &str, module: &str) -> (r: String)
    ensures
        r@ == import_path(dir@, module@),
{
    let mut r = String::from_str(dir);
    r.append("/");
    r.append(module);
    r.append(".j");
    r
}

/// The message of the error for a file that could not be read.
pub open spec fn import_failure(target: Seq<char>, cause: Seq<char>) -> Seq<char> {
    "Could not import file "@ + target + "\n "@ + cause
}

impl ParseError {
    /// The file and the line of the error, as `file:line`.
    pub fn location(&self) -> (r: String)
        ensures
            r@ == location_text(self.file@, self.line as nat),
    {
        location(&self.file, self.line)
    }

    /// The error in full: the message, and on a line of its own where it
    /// stands.
    pub fn message(&self) -> (r: String)
        ensures
            r@ == self.error@ + "\n "@ + location_text(self.file@, self.line as nat),
    {
        let mut r = self.error.clone();
        r.append("\n ");
        let place = location(&self.file, self.line);
        r.append(place.as_str());
        r
    }

    /// The error for an import, on line `line` of `file`, of the file
    /// `target`, which could not be read for the reason `cause`.
    pub fn import_failed(file: &String, line: u64, target: &str, cause: &str) -> (e: ParseError)
        ensures
            e.line == line,
            e.file@ == file@,
            e.error@ == import_failure(target@, cause@),
    {
        let mut error = String::from_str("Could not import file ");
        error.append(target);
        error.append("\n ");
        error.append(cause);
        ParseError { line, file: file.clone(), error }
    }
}

/// The tables in `tables`, from place `k` on, merged into `found` one after
/// the other.
pub open spec fn merged_all(
    found: Seq<(Seq<char>, Seq<(int, TokenView)>)>,
    tables: Seq<ParsedFile>,
    k: int,
) -> Seq<(Seq<char>, Seq<(int, TokenView)>)>
    decreases tables.len() - k,
{
    if k < 0 || k >= tables.len() {
        found
    } else {
        merged_all(merged(found, tables[k]@), tables, k + 1)
    }
}

/// The table of a file and what it imports: the tables of its imports, in the
/// order of the imports, each replacing what stood under its paths before,
/// and then the file itself under `path`.
pub fn assemble(path: String, tokens: Vec<(u64, Token)>, imported: Vec<ParsedFile>) -> (r:
    ParsedFile)
    ensures
        r@ == put(
            merged_all(Seq::empty(), imported@, 0),
            path@,
            positioned(tokens@),
        ),
        r.wf(),
{
    let mut table = ParsedFile::new();
    let mut rest = imported;
    let ghost all = imported@;
    let ghost mut k: int = 0;
    while rest.len() > 0
        invariant
            table.wf(),
            0 <= k <= all.len(),
            rest@ =~= all.skip(k),
            merged_all(Seq::empty(), all, 0) == merged_all(table@, all, k),
        decreases rest@.len(),
    {
        let next = rest.remove(0);
        proof {
            assert(next == all[k]);
            k = k + 1;
        }
        table.extend(next);
    }
    table.insert(path, tokens);
    table
}

} // verus!
