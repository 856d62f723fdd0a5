//! The import resolver: which file to read next, and how the tables of the
//! files that were read join into one. Reading is left to the caller.

use vstd::prelude::*;
use crate::parser::{parse, positioned, requested, Import, ParseError, ScanState, Token, TokenView};
use crate::parser::{import_failure, merged_all};
use crate::table::{merged, put, ParsedFile};

verus! {

/// A file that was scanned and whose imports are being brought in.
#[derive(Debug)]
pub struct Pending {
    pub path: String,
    pub tokens: Vec<(u64, Token)>,
    /// The imports that are not brought in yet; the first is being read.
    pub waiting: Vec<Import>,
    /// What the imports before them brought.
    pub table: ParsedFile,
}

/// What a `Pending` stands for.
pub struct PendingView {
    pub path: Seq<char>,
    pub tokens: Seq<(int, TokenView)>,
    pub waiting: Seq<(int, Seq<char>)>,
    pub table: Seq<(Seq<char>, Seq<(int, TokenView)>)>,
}

impl View for Pending {
    type V = PendingView;

    open spec fn view(&self) -> PendingView {
        PendingView {
            path: self.path@,
            tokens: positioned(self.tokens@),
            waiting: requested(self.waiting@),
            table: self.table@,
        }
    }
}

/// The files that are being resolved, as the contracts see them.
pub open spec fn chain(v: Seq<Pending>) -> Seq<PendingView> {
    Seq::new(v.len(), |i: int| v[i]@)
}

/// The file as it stands when the text at `path` has just been scanned.
pub open spec fn entered(path: Seq<char>, text: Seq<char>) -> PendingView {
    PendingView {
        path: path,
        tokens: ScanState::start().run(text).tokens,
        waiting: ScanState::start().run(text).imports,
        table: Seq::empty(),
    }
}

/// The table of a file whose imports are all in: what they brought, and the
/// file itself, which replaces an import of its own path.
pub open spec fn finished(p: PendingView) -> Seq<(Seq<char>, Seq<(int, TokenView)>)> {
    put(p.table, p.path, p.tokens)
}

/// The file `p` after the import it waited for brought `table`: the table is
/// merged into what the earlier imports brought, and the next import is up.
pub open spec fn supplied(p: PendingView, table: Seq<(Seq<char>, Seq<(int, TokenView)>)>) -> PendingView {
    PendingView {
        waiting: if p.waiting.len() > 0 {
            p.waiting.drop_first()
        } else {
            p.waiting
        },
        table: merged(p.table, table),
        ..p
    }
}

/// The chain after every file at its end that waits for nothing has handed
/// its table to the file that imported it.
pub open spec fn settled(files: Seq<PendingView>) -> Seq<PendingView>
    decreases files.len(),
{
    if files.len() == 0 || files.last().waiting.len() > 0 {
        files
    } else if files.len() == 1 {
        Seq::empty()
    } else {
        settled(
            files.take(files.len() - 2).push(
                supplied(files[files.len() - 2], finished(files.last())),
            ),
        )
    }
}

/// The table of the whole program, where settling the chain ends with the
/// file that was entered first.
pub open spec fn outcome(files: Seq<PendingView>) -> Option<Seq<(Seq<char>, Seq<(int, TokenView)>)>>
    decreases files.len(),
{
    if files.len() == 0 || files.last().waiting.len() > 0 {
        None
    } else if files.len() == 1 {
        Some(finished(files.last()))
    } else {
        outcome(
            files.take(files.len() - 2).push(
                supplied(files[files.len() - 2], finished(files.last())),
            ),
        )
    }
}

/// The file `p` after its imports brought the tables in `tables` from place
/// `k` on, one after the other.
pub open spec fn supplied_from(p: PendingView, tables: Seq<ParsedFile>, k: int) -> PendingView
    decreases tables.len() - k,
{
    if k < 0 || k >= tables.len() {
        p
    } else {
        supplied_from(supplied(p, tables[k]@), tables, k + 1)
    }
}

/// A file whose imports brought their tables one after the other ends with
/// the table that assembling gives from those tables: they are merged in the
/// order of the imports, and the file itself comes last.
pub proof fn lemma_supplied_is_assembled(p: PendingView, tables: Seq<ParsedFile>, k: int)
    requires
        0 <= k <= tables.len(),
    ensures
        finished(supplied_from(p, tables, k)) == put(
            merged_all(p.table, tables, k),
            p.path,
            p.tokens,
        ),
    decreases tables.len() - k,
{
    if k < tables.len() {
        lemma_supplied_is_assembled(supplied(p, tables[k]@), tables, k + 1);
    }
}

/// A file that imports nothing resolves to the table that holds it alone.
pub proof fn lemma_file_without_imports(path: Seq<char>, text: Seq<char>)
    requires
        ScanState::start().run(text).imports.len() == 0,
    ensures
        outcome(seq![entered(path, text)]) == Some(
            seq![(path, ScanState::start().run(text).tokens)],
        ),
        settled(seq![entered(path, text)]) == Seq::<PendingView>::empty(),
{
    let p = entered(path, text);
    assert(seq![p].last() == p);
    assert(finished(p) =~= seq![(path, p.tokens)]);
}

/// A file that waits for an import stays as it is until the import is in.
pub proof fn lemma_waiting_file_stays(files: Seq<PendingView>)
    requires
        files.len() > 0,
        files.last().waiting.len() > 0,
    ensures
        settled(files) == files,
        outcome(files) is None,
{
}

/// What the caller is to do next.
#[derive(Debug)]
pub enum Action {
    /// Read the file that `module` names for the file at `from`, then enter
    /// its text, or ask for the error if it cannot be read.
    Read { from: String, module: String },
    /// Every file is in: this is the table.
    Done(ParsedFile),
    /// No file was entered.
    Idle,
}

/// The files of a program while its imports are brought in: the file that was
/// entered first, then the file it waits for, and so on.
#[derive(Debug)]
pub struct Resolver {
    pub pending: Vec<Pending>,
}

impl View for Resolver {
    type V = Seq<PendingView>;

    open spec fn view(&self) -> Seq<PendingView> {
        chain(self.pending@)
    }
}

impl Resolver {
    /// A resolver into which no file was entered.
    pub fn new() -> (r: Resolver)
        ensures
            r@ == Seq::<PendingView>::empty(),
    {
        let r = Resolver { pending: Vec::new() };
        proof {
            assert(r@ =~= Seq::empty());
        }
        r
    }

    /// Scans the text of the file at `path` and puts the file at the end of
    /// the chain: the entry file first, then each file that was asked for.
    pub fn enter(&mut self, path: String, source: &String)
        requires
            source@.len() < u64::MAX,
        ensures
            final(self)@ == old(self)@.push(entered(path@, source@)),
    {
        let scanned = parse(source);
        let file = Pending {
            path,
            tokens: scanned.tokens,
            waiting: scanned.imports,
            table: ParsedFile::new(),
        };
        self.pending.push(file);
        proof {
            assert(self@ =~= old(self)@.push(entered(path@, source@)));
        }
    }

    /// Settles the chain and says what to do next: to read the import that
    /// the last file waits for, or that the table is done.
    pub fn advance(&mut self) -> (r: Action)
        ensures
            final(self)@ == settled(old(self)@),
            match r {
                Action::Read { from, module } => {
                    &&& final(self)@.len() > 0
                    &&& final(self)@.last().waiting.len() > 0
                    &&& from@ == final(self)@.last().path
                    &&& module@ == final(self)@.last().waiting[0].1
                },
                Action::Done(table) => {
                    &&& old(self)@.len() > 0
                    &&& final(self)@.len() == 0
                    &&& outcome(old(self)@) == Some(table@)
                },
                Action::Idle => old(self)@.len() == 0,
            },
    {
        if self.pending.len() == 0 {
            return Action::Idle;
        }
        loop
            invariant
                self@.len() > 0,
                old(self)@.len() > 0,
                settled(old(self)@) == settled(self@),
                outcome(old(self)@) == outcome(self@),
            decreases self@.len(),
        {
            let ghost before = self@;
            let n: usize = self.pending.len();
            if self.pending[n - 1].waiting.len() > 0 {
                let from = self.pending[n - 1].path.clone();
                let module = self.pending[n - 1].waiting[0].module.clone();
                return Action::Read { from, module };
            }
            let last = self.pending.pop().unwrap();
            let mut table = last.table;
            table.insert(last.path, last.tokens);
            assert(table@ == finished(before.last()));
            if self.pending.len() == 0 {
                proof {
                    assert(self@ =~= Seq::empty());
                }
                return Action::Done(table);
            }
            let mut importer = self.pending.pop().unwrap();
            importer.table.extend(table);
            if importer.waiting.len() > 0 {
                let ghost waited = requested(importer.waiting@);
                importer.waiting.remove(0);
                proof {
                    assert(requested(importer.waiting@) =~= waited.drop_first());
                }
            }
            self.pending.push(importer);
            proof {
                assert(self@ =~= before.take(before.len() - 2).push(
                    supplied(before[before.len() - 2], finished(before.last())),
                ));
            }
        }
    }

    /// The error for the import that the last file waits for, where its file
    /// at `target` could not be read for the reason `cause`: it names the
    /// importing file and the line of the import. `None` where no file waits.
    pub fn refused(&self, target: &str, cause: &str) -> (r: Option<ParseError>)
        ensures
            r is Some <==> self@.len() > 0 && self@.last().waiting.len() > 0,
            r is Some ==> {
                &&& r.unwrap().line == self@.last().waiting[0].0
                &&& r.unwrap().file@ == self@.last().path
                &&& r.unwrap().error@ == import_failure(target@, cause@)
            },
    {
        let n: usize = self.pending.len();
        if n == 0 || self.pending[n - 1].waiting.len() == 0 {
            return None;
        }
        let file = &self.pending[n - 1];
        Some(ParseError::import_failed(&file.path, file.waiting[0].line, target, cause))
    }
}

} // verus!
