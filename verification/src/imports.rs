//! The files a multi-file build compiles: the entry file, then every file it
//! imports, directly or through other files, breadth first and each once.
//!
//! Resolving an import path to a file and reading that file are the caller's
//! part; the walk keeps the order and decides which files are new.

use vstd::prelude::*;
use crate::ast::{Program, TopLevel, TopLevelV};
use crate::text::same_text;

verus! {

/// The characters of each string, in order.
pub open spec fn texts(v: Seq<String>) -> Seq<Seq<char>> {
    v.map_values(|s: String| s@)
}

/// The import paths of a program's items, in the order the items stand.
pub open spec fn import_paths_v(items: Seq<TopLevelV>) -> Seq<Seq<char>>
    decreases items.len(),
{
    if items.len() == 0 {
        Seq::empty()
    } else {
        let rest = import_paths_v(items.drop_last());
        match items.last() {
            TopLevelV::Import(d) => rest.push(d.path),
            _ => rest,
        }
    }
}

/// The import paths of `program`, in the order its imports stand.
pub fn import_paths(program: &Program) -> (r: Vec<String>)
    ensures
        texts(r@) == import_paths_v(program@),
{
    let mut out: Vec<String> = Vec::new();
    let n = program.items.len();
    let mut i: usize = 0;
    while i < n
        invariant
            n == program.items@.len(),
            i <= n,
            texts(out@) == import_paths_v(program@.take(i as int)),
        decreases n - i,
    {
        assert(program@.take(i as int + 1).drop_last() =~= program@.take(i as int));
        match &program.items[i] {
            TopLevel::Import(imp) => {
                out.push(imp.path.clone());
                assert(texts(out@) =~= import_paths_v(program@.take(i as int + 1)));
            },
            _ => {},
        }
        i = i + 1;
    }
    assert(program@.take(n as int) =~= program@);
    out
}

/// No file occurs twice.
pub open spec fn distinct(s: Seq<Seq<char>>) -> bool {
    forall|i: int, j: int| 0 <= i < j < s.len() ==> s[i] != s[j]
}

/// The walk over an entry file's imports.  Every file it has met stands in
/// `files` once, in the order it was met; those before `next` have been handed
/// out to be read, the rest wait in that order.
pub struct ImportWalk {
    files: Vec<String>,
    next: usize,
}

impl ImportWalk {
    /// The files met so far, in the order they were met.
    pub closed spec fn order(&self) -> Seq<Seq<char>> {
        texts(self.files@)
    }

    /// How many of them have been handed out.
    pub closed spec fn handed_out(&self) -> nat {
        self.next as nat
    }

    /// Each file stands once, and no more files were handed out than met.
    pub open spec fn wf(&self) -> bool {
        &&& distinct(self.order())
        &&& self.handed_out() <= self.order().len()
    }

    /// A walk that has met only the entry file.
    pub fn start(entry: String) -> (w: ImportWalk)
        ensures
            w.wf(),
            w.order() == seq![entry@],
            w.handed_out() == 0,
    {
        let mut files: Vec<String> = Vec::new();
        files.push(entry);
        let w = ImportWalk { files, next: 0 };
        assert(w.order() =~= seq![w.files@[0]@]);
        w
    }

    /// The next file that waits to be read, if any.
    pub fn next_file(&mut self) -> (r: Option<String>)
        requires
            old(self).wf(),
        ensures
            final(self).wf(),
            final(self).order() == old(self).order(),
            old(self).handed_out() < old(self).order().len() ==> {
                &&& r is Some
                &&& r->0@ == old(self).order()[old(self).handed_out() as int]
                &&& final(self).handed_out() == old(self).handed_out() + 1
            },
            old(self).handed_out() == old(self).order().len() ==> {
                &&& r is None
                &&& final(self).handed_out() == old(self).handed_out()
            },
    {
        if self.next < self.files.len() {
            let f = self.files[self.next].clone();
            self.next = self.next + 1;
            Some(f)
        } else {
            None
        }
    }

    /// Whether `file` has been met already.
    pub fn has_met(&self, file: &String) -> (r: bool)
        ensures
            r == self.order().contains(file@),
    {
        let mut i: usize = 0;
        while i < self.files.len()
            invariant
                i <= self.files@.len(),
                forall|k: int| 0 <= k < i ==> self.files@[k]@ != file@,
            decreases self.files.len() - i,
        {
            if same_text(&self.files[i], file) {
                assert(self.order()[i as int] == file@);
                return true;
            }
            i = i + 1;
        }
        assert forall|k: int| 0 <= k < self.order().len() implies self.order()[k] != file@ by {
            assert(self.order()[k] == self.files@[k]@);
        }
        false
    }

    /// Notes a file that a file being read imports.  A file not met before
    /// joins the end of the queue, and the call says `true`; a file met
    /// before changes nothing.
    pub fn discover(&mut self, file: String) -> (added: bool)
        requires
            old(self).wf(),
        ensures
            final(self).wf(),
            added == !old(self).order().contains(file@),
            added ==> final(self).order() == old(self).order().push(file@),
            !added ==> final(self).order() == old(self).order(),
            final(self).handed_out() == old(self).handed_out(),
    {
        if self.has_met(&file) {
            false
        } else {
            let ghost before = self.order();
            let ghost f = file@;
            self.files.push(file);
            assert(self.order() =~= before.push(f));
            assert forall|i: int, j: int| 0 <= i < j < self.order().len() implies
                self.order()[i] != self.order()[j] by {
                if j == before.len() {
                    assert(before[i] == self.order()[i]);
                    assert(before.contains(before[i]));
                }
            }
            true
        }
    }

    /// The files met, in the order they were met: the order to compile them.
    pub fn into_files(self) -> (r: Vec<String>)
        ensures
            texts(r@) == self.order(),
    {
        self.files
    }
}

} // verus!
