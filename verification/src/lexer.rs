//! The function signature extractor: from the table of scanned files to the
//! functions that the files define.

use vstd::prelude::*;
use vstd::string::StringExecFns;
use crate::parser::{positioned, Token, TokenView};
use crate::text::{location, location_text};
use crate::table::{distinct, find_from, keys, lemma_find_from, lemma_put, lookup, put, ParsedFile};

verus! {

/// A function's signature: its name, the file that defines it and the names
/// of its parameters in order.
#[derive(Debug, Clone, PartialEq, Eq)]
pub struct Function {
    pub name: String,
    pub file: String,
    pub args: Vec<String>,
}

/// What a `Function` stands for.
pub struct FunctionView {
    pub name: Seq<char>,
    pub file: Seq<char>,
    pub args: Seq<Seq<char>>,
}

/// The texts of a list of strings.
pub open spec fn texts(v: Seq<String>) -> Seq<Seq<char>> {
    Seq::new(v.len(), |i: int| v[i]@)
}

impl View for Function {
    type V = FunctionView;

    open spec fn view(&self) -> FunctionView {
        FunctionView { name: self.name@, file: self.file@, args: texts(self.args@) }
    }
}

/// A definition header that does not have the required shape.
#[derive(Debug)]
pub struct SyntaxError {
    pub line: u64,
    pub file: String,
    pub error: String,
}

/// What a `SyntaxError` stands for.
pub struct SyntaxErrorView {
    pub line: int,
    pub file: Seq<char>,
    pub error: Seq<char>,
}

impl View for SyntaxError {
    type V = SyntaxErrorView;

    open spec fn view(&self) -> SyntaxErrorView {
        SyntaxErrorView { line: self.line as int, file: self.file@, error: self.error@ }
    }
}

impl SyntaxError {
    /// The file and the line of the error, as `file:line`.
    pub fn location(&self) -> (r: String)
        ensures
            r@ == location_text(self.file@, self.line as nat),
    {
        location(&self.file, self.line)
    }

    /// The error in full: the message, and on a line of its own where it
    /// stands.
    pub fn message(&self) -> (r: String)
        ensures
            r@ == "Syntax Error: "@ + self.error@ + "\n "@ + location_text(
                self.file@,
                self.line as nat,
            ),
    {
        let mut r = String::from_str("Syntax Error: ");
        r.append(self.error.as_str());
        r.append("\n ");
        let place = location(&self.file, self.line);
        r.append(place.as_str());
        r
    }
}

/// How an error message names a token.
pub open spec fn described(t: TokenView) -> Seq<char> {
    match t {
        TokenView::Def => "Def"@,
        TokenView::Symbol(s) => "Symbol("@ + s + ")"@,
        TokenView::Value(_) => "Value"@,
        TokenView::End => "End"@,
        TokenView::Var => "Var"@,
        TokenView::Ret => "Ret"@,
        TokenView::Eq => "Eq"@,
        TokenView::Ne => "Ne"@,
        TokenView::If => "If"@,
        TokenView::Else => "Else"@,
        TokenView::LBrace => "LBrace"@,
        TokenView::RBrace => "RBrace"@,
        TokenView::Add => "Add"@,
        TokenView::Minus => "Minus"@,
        TokenView::Times => "Times"@,
        TokenView::Divide => "Divide"@,
        TokenView::Comma => "Comma"@,
        TokenView::Assign => "Assign"@,
        TokenView::NewLine => "NewLine"@,
        TokenView::While => "While"@,
    }
}

/// The token at place `j`, if the tokens reach that far.
pub open spec fn token_at(tokens: Seq<(int, TokenView)>, j: int) -> Option<TokenView> {
    if 0 <= j < tokens.len() {
        Some(tokens[j].1)
    } else {
        None
    }
}

/// The line that an error at place `j` names: that of the token there, or of
/// the last token where the tokens end before `j`.
pub open spec fn line_at(tokens: Seq<(int, TokenView)>, j: int) -> int {
    if 0 <= j < tokens.len() {
        tokens[j].0
    } else if tokens.len() > 0 {
        tokens.last().0
    } else {
        0
    }
}

/// The message of an error: what was expected and what stands there.
pub open spec fn complaint(expected: Seq<char>, found: Option<TokenView>) -> Seq<char> {
    "Expected "@ + expected + ", found "@ + match found {
        Some(t) => described(t),
        None => "end of input"@,
    }
}

/// The error for a wrong or missing token at place `j` of the file's tokens.
pub open spec fn fault(
    tokens: Seq<(int, TokenView)>,
    file: Seq<char>,
    j: int,
    expected: Seq<char>,
) -> SyntaxErrorView {
    SyntaxErrorView {
        line: line_at(tokens, j),
        file: file,
        error: complaint(expected, token_at(tokens, j)),
    }
}

/// The parameter names from place `j` on, after those in `seen`: names
/// with a comma after each but the last, where a comma may also stand after
/// the last, up to a right parenthesis.
pub open spec fn params_from(
    tokens: Seq<(int, TokenView)>,
    file: Seq<char>,
    j: int,
    seen: Seq<Seq<char>>,
) -> Result<Seq<Seq<char>>, SyntaxErrorView>
    decreases tokens.len() - j,
{
    match token_at(tokens, j) {
        Some(TokenView::Symbol(a)) => match token_at(tokens, j + 1) {
            Some(TokenView::Comma) => params_from(tokens, file, j + 2, seen.push(a)),
            Some(TokenView::RBrace) => Ok(seen.push(a)),
            _ => Err(fault(tokens, file, j + 1, ", )"@)),
        },
        Some(TokenView::RBrace) => Ok(seen),
        _ => Err(fault(tokens, file, j, "symbol )"@)),
    }
}

/// The header of the definition whose `def` stands at place `i`: the name,
/// a left parenthesis and the parameters.
pub open spec fn header_at(tokens: Seq<(int, TokenView)>, file: Seq<char>, i: int) -> Result<
    FunctionView,
    SyntaxErrorView,
> {
    match token_at(tokens, i + 1) {
        Some(TokenView::Symbol(name)) => match token_at(tokens, i + 2) {
            Some(TokenView::LBrace) => match params_from(tokens, file, i + 3, Seq::empty()) {
                Ok(args) => Ok(FunctionView { name: name, file: file, args: args }),
                Err(e) => Err(e),
            },
            _ => Err(fault(tokens, file, i + 2, "("@)),
        },
        _ => Err(fault(tokens, file, i + 1, "name"@)),
    }
}

/// The functions in `found` and those that the file defines from place `i`
/// on, or the error of the first header there that is wrong.
pub open spec fn extract_from(
    tokens: Seq<(int, TokenView)>,
    file: Seq<char>,
    i: int,
    found: Seq<(Seq<char>, FunctionView)>,
) -> Result<Seq<(Seq<char>, FunctionView)>, SyntaxErrorView>
    decreases tokens.len() - i,
{
    if i < 0 || i >= tokens.len() {
        Ok(found)
    } else if tokens[i].1 is Def {
        match header_at(tokens, file, i) {
            Ok(f) => extract_from(tokens, file, i + 1, put(found, f.name, f)),
            Err(e) => Err(e),
        }
    } else {
        extract_from(tokens, file, i + 1, found)
    }
}

/// The functions in `found` and those of the files from place `k` of the
/// table on, or the first error.
pub open spec fn extract_all(
    table: Seq<(Seq<char>, Seq<(int, TokenView)>)>,
    k: int,
    found: Seq<(Seq<char>, FunctionView)>,
) -> Result<Seq<(Seq<char>, FunctionView)>, SyntaxErrorView>
    decreases table.len() - k,
{
    if k < 0 || k >= table.len() {
        Ok(found)
    } else {
        match extract_from(table[k].1, table[k].0, 0, found) {
            Ok(next) => extract_all(table, k + 1, next),
            Err(e) => Err(e),
        }
    }
}

/// The functions that the files of a table define, by name: where a name is
/// defined twice, the later definition stands.
pub open spec fn functions_of(table: Seq<(Seq<char>, Seq<(int, TokenView)>)>) -> Result<
    Seq<(Seq<char>, FunctionView)>,
    SyntaxErrorView,
> {
    extract_all(table, 0, Seq::empty())
}

/// A wrong header fails the file it stands in, whatever was found before and
/// wherever in the file the walk began.
pub proof fn lemma_wrong_header_fails_file(
    tokens: Seq<(int, TokenView)>,
    file: Seq<char>,
    start: int,
    found: Seq<(Seq<char>, FunctionView)>,
    i: int,
)
    requires
        0 <= start <= i < tokens.len(),
        tokens[i].1 is Def,
        header_at(tokens, file, i) is Err,
    ensures
        extract_from(tokens, file, start, found) is Err,
    decreases i - start,
{
    if start < i {
        if tokens[start].1 is Def {
            match header_at(tokens, file, start) {
                Ok(f) => {
                    lemma_wrong_header_fails_file(tokens, file, start + 1, put(found, f.name, f), i);
                },
                Err(_) => {},
            }
        } else {
            lemma_wrong_header_fails_file(tokens, file, start + 1, found, i);
        }
    }
}

/// A wrong header anywhere fails the whole extraction: where the file at
/// place `k` of the table has a `def` at place `i` whose header is wrong, no
/// functions are given.
pub proof fn lemma_wrong_header_fails_all(
    table: Seq<(Seq<char>, Seq<(int, TokenView)>)>,
    start: int,
    found: Seq<(Seq<char>, FunctionView)>,
    k: int,
    i: int,
)
    requires
        0 <= start <= k < table.len(),
        0 <= i < table[k].1.len(),
        table[k].1[i].1 is Def,
        header_at(table[k].1, table[k].0, i) is Err,
    ensures
        extract_all(table, start, found) is Err,
        start == 0 && found.len() == 0 ==> functions_of(table) is Err,
    decreases k - start,
{
    if start < k {
        match extract_from(table[start].1, table[start].0, 0, found) {
            Ok(next) => {
                lemma_wrong_header_fails_all(table, start + 1, next, k, i);
            },
            Err(_) => {},
        }
    } else {
        lemma_wrong_header_fails_file(table[k].1, table[k].0, 0, found, i);
    }
    if start == 0 && found.len() == 0 {
        assert(found =~= Seq::empty());
    }
}

/// A header whose tokens end before its right parenthesis is wrong: where
/// from the place after the left parenthesis on only names and commas stand,
/// in turn, up to the end of the tokens, the parameters fail, and the error
/// names the line of the last token.
pub proof fn lemma_open_header_fails(
    tokens: Seq<(int, TokenView)>,
    file: Seq<char>,
    j: int,
    seen: Seq<Seq<char>>,
)
    requires
        0 <= j <= tokens.len(),
        tokens.len() > 0,
        forall|k: int|
            j <= k < tokens.len() ==> if (k - j) % 2 == 0 {
                #[trigger] tokens[k].1 is Symbol
            } else {
                tokens[k].1 is Comma
            },
    ensures
        params_from(tokens, file, j, seen) is Err,
        params_from(tokens, file, j, seen)->Err_0.line == tokens.last().0,
        params_from(tokens, file, j, seen)->Err_0.file == file,
    decreases tokens.len() - j,
{
    if j < tokens.len() {
        assert(tokens[j].1 is Symbol);
        if j + 1 < tokens.len() {
            assert(tokens[j + 1].1 is Comma);
            let a = tokens[j].1->Symbol_0;
            assert forall|k: int| j + 2 <= k < tokens.len() implies if (k - (j + 2)) % 2 == 0 {
                #[trigger] tokens[k].1 is Symbol
            } else {
                tokens[k].1 is Comma
            } by {
                assert((k - (j + 2)) % 2 == (k - j) % 2);
            }
            lemma_open_header_fails(tokens, file, j + 2, seen.push(a));
        }
    }
}

/// The functions of a program by name, in the order in which they were
/// defined last.
#[derive(Debug)]
pub struct Functions {
    pub entries: Vec<Function>,
}

/// A list of functions as a table from name to function.
pub open spec fn by_name(e: Seq<Function>) -> Seq<(Seq<char>, FunctionView)> {
    Seq::new(e.len(), |i: int| (e[i].name@, e[i]@))
}

impl View for Functions {
    type V = Seq<(Seq<char>, FunctionView)>;

    open spec fn view(&self) -> Self::V {
        by_name(self.entries@)
    }
}

impl Functions {
    /// Whether every name stands once.
    pub open spec fn wf(&self) -> bool {
        distinct(keys(self@))
    }

    /// A table without functions.
    pub fn new() -> (r: Functions)
        ensures
            r@ == Seq::<(Seq<char>, FunctionView)>::empty(),
            r.wf(),
    {
        let r = Functions { entries: Vec::new() };
        proof {
            assert(r@ =~= Seq::empty());
        }
        r
    }

    /// The number of functions.
    pub fn len(&self) -> (n: usize)
        ensures
            n == self@.len(),
    {
        self.entries.len()
    }

    /// The place of the function called `name`, or the number of functions
    /// where there is none.
    pub fn position(&self, name: &String) -> (r: usize)
        ensures
            r == find_from(keys(self@), name@, 0),
            r <= self@.len(),
    {
        let mut i: usize = 0;
        proof {
            lemma_find_from(keys(self@), name@, 0);
        }
        while i < self.entries.len()
            invariant
                i <= self.entries@.len(),
                find_from(keys(self@), name@, 0) == find_from(keys(self@), name@, i as int),
            decreases self.entries@.len() - i,
        {
            if self.entries[i].name == *name {
                return i;
            }
            i += 1;
        }
        i
    }

    /// The function called `name`.
    pub fn get(&self, name: &String) -> (r: Option<&Function>)
        ensures
            r is Some <==> lookup(self@, name@) is Some,
            r is Some ==> r.unwrap()@ == lookup(self@, name@).unwrap(),
    {
        let i = self.position(name);
        if i < self.entries.len() {
            Some(&self.entries[i])
        } else {
            None
        }
    }

    /// Puts `f` under its name; a function of that name that was there is
    /// dropped.
    pub fn insert(&mut self, f: Function)
        ensures
            final(self)@ == put(old(self)@, f.name@, f@),
            old(self).wf() ==> final(self).wf(),
    {
        let i = self.position(&f.name);
        if i < self.entries.len() {
            self.entries.remove(i);
        }
        self.entries.push(f);
        proof {
            assert(self@ =~= put(old(self)@, f.name@, f@));
            if old(self).wf() {
                lemma_put(old(self)@, f.name@, f@, f.name@);
            }
        }
    }
}

/// How an error message names `t`.
pub fn describe(t: &Token) -> (r: String)
    ensures
        r@ == described(t@),
{
    match t {
        Token::Def => String::from_str("Def"),
        Token::Symbol(s) => {
            let mut r = String::from_str("Symbol(");
            r.append(s.as_str());
            r.append(")");
            r
        },
        Token::Value(_) => String::from_str("Value"),
        Token::End => String::from_str("End"),
        Token::Var => String::from_str("Var"),
        Token::Ret => String::from_str("Ret"),
        Token::Eq => String::from_str("Eq"),
        Token::Ne => String::from_str("Ne"),
        Token::If => String::from_str("If"),
        Token::Else => String::from_str("Else"),
        Token::LBrace => String::from_str("LBrace"),
        Token::RBrace => String::from_str("RBrace"),
        Token::Add => String::from_str("Add"),
        Token::Minus => String::from_str("Minus"),
        Token::Times => String::from_str("Times"),
        Token::Divide => String::from_str("Divide"),
        Token::Comma => String::from_str("Comma"),
        Token::Assign => String::from_str("Assign"),
        Token::NewLine => String::from_str("NewLine"),
        Token::While => String::from_str("While"),
    }
}

/// The error for a wrong or missing token at place `j`.
fn fault_at(tokens: &Vec<(u64, Token)>, file: &String, j: usize, expected: &str) -> (e: SyntaxError)
    requires
        tokens@.len() > 0,
    ensures
        e@ == fault(positioned(tokens@), file@, j as int, expected@),
{
    let mut error = String::from_str("Expected ");
    error.append(expected);
    error.append(", found ");
    let line: u64;
    if j < tokens.len() {
        let found = describe(&tokens[j].1);
        error.append(found.as_str());
        line = tokens[j].0;
    } else {
        error.append("end of input");
        line = tokens[tokens.len() - 1].0;
    }
    SyntaxError { line, file: file.clone(), error }
}

/// The parameters of a header from place `start` on.
fn parameters(tokens: &Vec<(u64, Token)>, file: &String, start: usize) -> (r: Result<
    Vec<String>,
    SyntaxError,
>)
    requires
        tokens@.len() > 0,
    ensures
        match r {
            Ok(args) => params_from(positioned(tokens@), file@, start as int, Seq::empty()) == Ok::<
                Seq<Seq<char>>,
                SyntaxErrorView,
            >(texts(args@)),
            Err(e) => params_from(positioned(tokens@), file@, start as int, Seq::empty()) == Err::<
                Seq<Seq<char>>,
                SyntaxErrorView,
            >(e@),
        },
{
    let n: usize = tokens.len();
    let mut args: Vec<String> = Vec::new();
    let mut j: usize = start;
    proof {
        assert(texts(args@) =~= Seq::empty());
    }
    loop
        invariant
            n == tokens@.len(),
            n > 0,
            params_from(positioned(tokens@), file@, start as int, Seq::empty()) == params_from(
                positioned(tokens@),
                file@,
                j as int,
                texts(args@),
            ),
        decreases n - j,
    {
        if j >= n {
            return Err(fault_at(tokens, file, j, "symbol )"));
        }
        match &tokens[j].1 {
            Token::Symbol(a) => {
                let ghost before = texts(args@);
                args.push(a.clone());
                proof {
                    assert(texts(args@) =~= before.push(a@));
                }
                if j + 1 >= n {
                    return Err(fault_at(tokens, file, j + 1, ", )"));
                }
                match &tokens[j + 1].1 {
                    Token::Comma => {
                        j = j + 2;
                    },
                    Token::RBrace => {
                        return Ok(args);
                    },
                    _ => {
                        return Err(fault_at(tokens, file, j + 1, ", )"));
                    },
                }
            },
            Token::RBrace => {
                return Ok(args);
            },
            _ => {
                return Err(fault_at(tokens, file, j, "symbol )"));
            },
        }
    }
}

/// Reads the header of the definition whose `def` stands at place `i`.
pub fn header(tokens: &Vec<(u64, Token)>, file: &String, i: usize) -> (r: Result<
    Function,
    SyntaxError,
>)
    requires
        i < tokens@.len(),
    ensures
        match r {
            Ok(f) => header_at(positioned(tokens@), file@, i as int) == Ok::<
                FunctionView,
                SyntaxErrorView,
            >(f@),
            Err(e) => header_at(positioned(tokens@), file@, i as int) == Err::<
                FunctionView,
                SyntaxErrorView,
            >(e@),
        },
{
    let n: usize = tokens.len();
    if i + 1 >= n {
        return Err(fault_at(tokens, file, i + 1, "name"));
    }
    match &tokens[i + 1].1 {
        Token::Symbol(name) => {
            if i + 2 >= n {
                return Err(fault_at(tokens, file, i + 2, "("));
            }
            match &tokens[i + 2].1 {
                Token::LBrace => {
                    if i + 3 >= n {
                        return Err(fault_at(tokens, file, i + 3, "symbol )"));
                    }
                    match parameters(tokens, file, i + 3) {
                        Ok(args) => Ok(Function { name: name.clone(), file: file.clone(), args }),
                        Err(e) => Err(e),
                    }
                },
                _ => Err(fault_at(tokens, file, i + 2, "(")),
            }
        },
        _ => Err(fault_at(tokens, file, i + 1, "name")),
    }
}

/// Puts the functions that one file defines into `functions`.
pub fn extract(tokens: &Vec<(u64, Token)>, file: &String, functions: &mut Functions) -> (r: Result<
    (),
    SyntaxError,
>)
    ensures
        match r {
            Ok(_) => extract_from(positioned(tokens@), file@, 0, old(functions)@) == Ok::<
                Seq<(Seq<char>, FunctionView)>,
                SyntaxErrorView,
            >(final(functions)@),
            Err(e) => extract_from(positioned(tokens@), file@, 0, old(functions)@) == Err::<
                Seq<(Seq<char>, FunctionView)>,
                SyntaxErrorView,
            >(e@),
        },
        old(functions).wf() ==> final(functions).wf(),
{
    let n: usize = tokens.len();
    let mut i: usize = 0;
    while i < n
        invariant
            i <= n,
            n == tokens@.len(),
            extract_from(positioned(tokens@), file@, 0, old(functions)@) == extract_from(
                positioned(tokens@),
                file@,
                i as int,
                functions@,
            ),
            old(functions).wf() ==> functions.wf(),
        decreases n - i,
    {
        match &tokens[i].1 {
            Token::Def => {
                match header(tokens, file, i) {
                    Ok(f) => {
                        functions.insert(f);
                    },
                    Err(e) => {
                        return Err(e);
                    },
                }
            },
            _ => {},
        }
        i += 1;
    }
    Ok(())
}

/// Finds the functions that the files of `sources` define. The files are
/// read in the table's order, so that of two definitions of one name the
/// one in the file that was scanned last stands. The first wrong header
/// ends the work, and no function is given then.
pub fn lex(sources: ParsedFile) -> (r: Result<Functions, SyntaxError>)
    ensures
        match r {
            Ok(f) => functions_of(sources@) == Ok::<
                Seq<(Seq<char>, FunctionView)>,
                SyntaxErrorView,
            >(f@) && f.wf(),
            Err(e) => functions_of(sources@) == Err::<
                Seq<(Seq<char>, FunctionView)>,
                SyntaxErrorView,
            >(e@),
        },
{
    let mut functions = Functions::new();
    let n: usize = sources.entries.len();
    let mut k: usize = 0;
    while k < n
        invariant
            k <= n,
            n == sources@.len(),
            n == sources.entries@.len(),
            functions.wf(),
            functions_of(sources@) == extract_all(sources@, k as int, functions@),
        decreases n - k,
    {
        match extract(&sources.entries[k].1, &sources.entries[k].0, &mut functions) {
            Ok(_) => {},
            Err(e) => {
                return Err(e);
            },
        }
        k += 1;
    }
    Ok(functions)
}

} // verus!
