//! Tables keyed by a name, in which a name stands once and a later entry
//! replaces an earlier one of the same name: the model, and the table of
//! scanned files.

use vstd::prelude::*;
use crate::parser::{positioned, Token, TokenView};

verus! {

/// The names of a table's entries, in the table's order.
pub open spec fn keys<V>(s: Seq<(Seq<char>, V)>) -> Seq<Seq<char>> {
    Seq::new(s.len(), |i: int| s[i].0)
}

/// The first place at or after `i` where `key` stands in `names`, or the
/// length of `names` where there is none.
pub open spec fn find_from(names: Seq<Seq<char>>, key: Seq<char>, i: int) -> int
    decreases names.len() - i,
{
    if i < 0 || i >= names.len() {
        names.len() as int
    } else if names[i] == key {
        i
    } else {
        find_from(names, key, i + 1)
    }
}

/// Whether no name stands twice.
pub open spec fn distinct(names: Seq<Seq<char>>) -> bool {
    forall|i: int, j: int| 0 <= i < j < names.len() ==> names[i] != names[j]
}

/// The table with `key` bound to `value`: an earlier entry of that name
/// leaves, and the new one stands last.
pub open spec fn put<V>(s: Seq<(Seq<char>, V)>, key: Seq<char>, value: V) -> Seq<(Seq<char>, V)> {
    let i = find_from(keys(s), key, 0);
    if i < s.len() {
        s.remove(i).push((key, value))
    } else {
        s.push((key, value))
    }
}

/// The table `a` with the entries of `b` put into it, in the order of `b`.
pub open spec fn merged<V>(a: Seq<(Seq<char>, V)>, b: Seq<(Seq<char>, V)>) -> Seq<(Seq<char>, V)>
    decreases b.len(),
{
    if b.len() == 0 {
        a
    } else {
        merged(put(a, b[0].0, b[0].1), b.drop_first())
    }
}

/// What `key` is bound to, if anything.
pub open spec fn lookup<V>(s: Seq<(Seq<char>, V)>, key: Seq<char>) -> Option<V> {
    let i = find_from(keys(s), key, 0);
    if i < s.len() {
        Some(s[i].1)
    } else {
        None
    }
}

/// `find_from` gives the first place of `key` from `i` on.
pub proof fn lemma_find_from(names: Seq<Seq<char>>, key: Seq<char>, i: int)
    requires
        0 <= i <= names.len(),
    ensures
        i <= find_from(names, key, i) <= names.len(),
        find_from(names, key, i) < names.len() ==> names[find_from(names, key, i)] == key,
        forall|j: int| i <= j < find_from(names, key, i) ==> names[j] != key,
    decreases names.len() - i,
{
    if i < names.len() && names[i] != key {
        lemma_find_from(names, key, i + 1);
    }
}

/// The names of a table after `key` was put into it: those before, without
/// the first `key`, and then `key`.
pub open spec fn names_after_put(names: Seq<Seq<char>>, key: Seq<char>) -> Seq<Seq<char>> {
    let i = find_from(names, key, 0);
    Seq::new(
        if i < names.len() {
            names.len()
        } else {
            names.len() + 1
        },
        |j: int|
            if i < names.len() {
                if j < i {
                    names[j]
                } else if j < names.len() - 1 {
                    names[j + 1]
                } else {
                    key
                }
            } else {
                if j < names.len() {
                    names[j]
                } else {
                    key
                }
            },
    )
}

/// Where names stand after `key` was put into a list without repeated names:
/// `key` last, every other name one place earlier if it stood behind `key`.
pub proof fn lemma_names_after_put(names: Seq<Seq<char>>, key: Seq<char>, other: Seq<char>)
    requires
        distinct(names),
    ensures
        distinct(names_after_put(names, key)),
        find_from(names_after_put(names, key), key, 0) == names_after_put(names, key).len() - 1,
        other != key ==> {
            let i = find_from(names, key, 0);
            let p = find_from(names, other, 0);
            let q = find_from(names_after_put(names, key), other, 0);
            if p < names.len() {
                q == if p < i {
                    p
                } else {
                    p - 1
                }
            } else {
                q == names_after_put(names, key).len()
            }
        },
{
    let i = find_from(names, key, 0);
    let tn = names_after_put(names, key);
    lemma_find_from(names, key, 0);
    lemma_find_from(tn, key, 0);
    assert(tn[tn.len() - 1] == key);
    assert forall|j: int| 0 <= j < tn.len() - 1 implies tn[j] != key by {
        if i < names.len() && j >= i {
            assert(names[i] != names[j + 1]);
        }
    }
    assert forall|a: int, b: int| 0 <= a < b < tn.len() implies tn[a] != tn[b] by {
        if b < tn.len() - 1 {
            let ka = if i < names.len() && a >= i {
                a + 1
            } else {
                a
            };
            let kb = if i < names.len() && b >= i {
                b + 1
            } else {
                b
            };
            assert(names[ka] != names[kb]);
        }
    }
    if other != key {
        let p = find_from(names, other, 0);
        let q = find_from(tn, other, 0);
        lemma_find_from(names, other, 0);
        lemma_find_from(tn, other, 0);
        if q < tn.len() {
            assert(q < tn.len() - 1);
            let kq = if i < names.len() && q >= i {
                q + 1
            } else {
                q
            };
            assert(names[kq] == other);
            assert(p <= kq);
            if p < kq {
                assert(names[p] != names[kq]);
            }
        }
        if p < names.len() {
            let pj = if p < i {
                p
            } else {
                p - 1
            };
            assert(tn[pj] == other);
        }
    }
}

/// Putting an entry into a table without repeated names gives such a table,
/// one in which the name is bound to the new value and every other name to
/// what it was bound to before.
pub proof fn lemma_put<V>(s: Seq<(Seq<char>, V)>, key: Seq<char>, value: V, other: Seq<char>)
    requires
        distinct(keys(s)),
    ensures
        distinct(keys(put(s, key, value))),
        lookup(put(s, key, value), key) == Some(value),
        other != key ==> lookup(put(s, key, value), other) == lookup(s, other),
        put(s, key, value).len() == if lookup(s, key) is Some {
            s.len()
        } else {
            s.len() + 1
        },
{
    let names = keys(s);
    let t = put(s, key, value);
    lemma_find_from(names, key, 0);
    lemma_find_from(names, other, 0);
    assert(keys(t) =~= names_after_put(names, key));
    lemma_names_after_put(names, key, other);
}

/// Merging tables without repeated names gives a table without repeated names.
pub proof fn lemma_merged_distinct<V>(a: Seq<(Seq<char>, V)>, b: Seq<(Seq<char>, V)>)
    requires
        distinct(keys(a)),
    ensures
        distinct(keys(merged(a, b))),
    decreases b.len(),
{
    if b.len() > 0 {
        lemma_put(a, b[0].0, b[0].1, b[0].0);
        lemma_merged_distinct(put(a, b[0].0, b[0].1), b.drop_first());
    }
}

/// The scanned files of a program: each file's path with its tokens, in the
/// order in which the files were put in.
#[derive(Debug)]
pub struct ParsedFile {
    pub entries: Vec<(String, Vec<(u64, Token)>)>,
}

/// The entries of a table of files as the contracts see them.
pub open spec fn files(e: Seq<(String, Vec<(u64, Token)>)>) -> Seq<(Seq<char>, Seq<(int, TokenView)>)> {
    Seq::new(e.len(), |i: int| (e[i].0@, positioned(e[i].1@)))
}

impl View for ParsedFile {
    type V = Seq<(Seq<char>, Seq<(int, TokenView)>)>;

    open spec fn view(&self) -> Self::V {
        files(self.entries@)
    }
}

impl ParsedFile {
    /// Whether every path stands once.
    pub open spec fn wf(&self) -> bool {
        distinct(keys(self@))
    }

    /// A table without files.
    pub fn new() -> (r: ParsedFile)
        ensures
            r@ == Seq::<(Seq<char>, Seq<(int, TokenView)>)>::empty(),
            r.wf(),
    {
        let r = ParsedFile { entries: Vec::new() };
        proof {
            assert(r@ =~= Seq::empty());
        }
        r
    }

    /// The number of files.
    pub fn len(&self) -> (n: usize)
        ensures
            n == self@.len(),
    {
        self.entries.len()
    }

    /// The place of `path` among the entries, or their number where it is
    /// not there.
    pub fn position(&self, path: &String) -> (r: usize)
        ensures
            r == find_from(keys(self@), path@, 0),
            r <= self@.len(),
    {
        let mut i: usize = 0;
        proof {
            lemma_find_from(keys(self@), path@, 0);
        }
        while i < self.entries.len()
            invariant
                i <= self.entries@.len(),
                find_from(keys(self@), path@, 0) == find_from(keys(self@), path@, i as int),
            decreases self.entries@.len() - i,
        {
            if self.entries[i].0 == *path {
                return i;
            }
            i += 1;
        }
        i
    }

    /// The tokens of the file at `path`.
    pub fn get(&self, path: &String) -> (r: Option<&Vec<(u64, Token)>>)
        ensures
            r is Some <==> lookup(self@, path@) is Some,
            r is Some ==> positioned(r.unwrap()@) == lookup(self@, path@).unwrap(),
    {
        let i = self.position(path);
        if i < self.entries.len() {
            Some(&self.entries[i].1)
        } else {
            None
        }
    }

    /// Binds `path` to `tokens`; what the path was bound to before is dropped.
    pub fn insert(&mut self, path: String, tokens: Vec<(u64, Token)>)
        ensures
            final(self)@ == put(old(self)@, path@, positioned(tokens@)),
            old(self).wf() ==> final(self).wf(),
    {
        let i = self.position(&path);
        if i < self.entries.len() {
            self.entries.remove(i);
        }
        self.entries.push((path, tokens));
        proof {
            assert(self@ =~= put(old(self)@, path@, positioned(tokens@)));
            if old(self).wf() {
                lemma_put(old(self)@, path@, positioned(tokens@), path@);
            }
        }
    }

    /// Puts every entry of `other` into this table, in the order of `other`.
    pub fn extend(&mut self, other: ParsedFile)
        ensures
            final(self)@ == merged(old(self)@, other@),
            old(self).wf() ==> final(self).wf(),
    {
        let mut rest = other.entries;
        proof {
            if old(self).wf() {
                lemma_merged_distinct(old(self)@, other@);
            }
        }
        while rest.len() > 0
            invariant
                merged(old(self)@, other@) == merged(self@, files(rest@)),
            decreases rest@.len(),
        {
            let ghost before = files(rest@);
            let (path, tokens) = rest.remove(0);
            proof {
                assert(files(rest@) =~= before.drop_first());
            }
            self.insert(path, tokens);
        }
    }
}

} // verus!
