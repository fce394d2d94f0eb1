//! The files of a document that is to be typeset.
//!
//! A document is a main file and whatever that file reads: libraries, data,
//! images. The files are kept in memory under their paths. Typesetting them
//! is not done here.

use vstd::prelude::*;

verus! {

/// The path of the file with which typesetting starts.
pub const MAIN_PATH: &'static str = "/main.typ";

/// Files by their paths. A file that is added under a path that is taken
/// replaces the file that was there.
#[derive(Clone)]
pub struct Typst {
    files: Vec<(String, Vec<u8>)>,
}

/// The files that the entries stand for, a later entry replacing an
/// earlier one with the same path.
pub open spec fn files_of(entries: Seq<(String, Vec<u8>)>) -> Map<Seq<char>, Seq<u8>>
    decreases entries.len(),
{
    if entries.len() == 0 {
        Map::empty()
    } else {
        files_of(entries.drop_last()).insert(entries.last().0@, entries.last().1@)
    }
}

/// Entries behind the first `n` that have another path do not change what
/// is found under `path`.
proof fn lemma_later_entries(entries: Seq<(String, Vec<u8>)>, n: int, path: Seq<char>)
    requires
        0 <= n <= entries.len(),
        forall|k: int| n <= k < entries.len() ==> (#[trigger] entries[k]).0@ != path,
    ensures
        files_of(entries).contains_key(path) == files_of(entries.take(n)).contains_key(path),
        files_of(entries).contains_key(path) ==> files_of(entries)[path] == files_of(
            entries.take(n),
        )[path],
    decreases entries.len() - n,
{
    if n == entries.len() {
        assert(entries.take(n) =~= entries);
    } else {
        let front = entries.drop_last();
        assert forall|k: int| n <= k < front.len() implies (#[trigger] front[k]).0@ != path by {
            assert(front[k] == entries[k]);
        }
        lemma_later_entries(front, n, path);
        assert(front.take(n) =~= entries.take(n));
        assert(entries[entries.len() - 1].0@ != path);
    }
}

impl View for Typst {
    type V = Map<Seq<char>, Seq<u8>>;

    closed spec fn view(&self) -> Map<Seq<char>, Seq<u8>> {
        files_of(self.files@)
    }
}

impl Typst {
    /// A document without files.
    pub fn new() -> (t: Typst)
        ensures
            t@ == Map::<Seq<char>, Seq<u8>>::empty(),
    {
        Typst { files: Vec::new() }
    }

    /// Puts a file under the path.
    pub fn add_file(&mut self, path: String, data: Vec<u8>)
        ensures
            final(self)@ == old(self)@.insert(path@, data@),
    {
        let ghost before = self.files@;
        self.files.push((path, data));
        proof {
            assert(self.files@.drop_last() =~= before);
        }
    }

    /// The document with a file put under the path.
    pub fn with_file(self, path: String, data: Vec<u8>) -> (t: Typst)
        ensures
            t@ == self@.insert(path@, data@),
    {
        let mut this = self;
        this.add_file(path, data);
        this
    }

    /// Puts the file with which typesetting starts.
    pub fn add_main_file(&mut self, data: Vec<u8>)
        ensures
            final(self)@ == old(self)@.insert(MAIN_PATH@, data@),
    {
        self.add_file(MAIN_PATH.to_owned(), data);
    }

    /// The document with the file with which typesetting starts.
    pub fn with_main_file(self, data: Vec<u8>) -> (t: Typst)
        ensures
            t@ == self@.insert(MAIN_PATH@, data@),
    {
        let mut this = self;
        this.add_main_file(data);
        this
    }

    /// The file under the path, if there is one.
    pub fn get_file_bytes(&self, path: &str) -> (data: Option<&Vec<u8>>)
        ensures
            data.is_some() <==> self@.contains_key(path@),
            data.is_some() ==> data.unwrap()@ == self@[path@],
    {
        let wanted = path.to_owned();
        let mut n: usize = self.files.len();
        while n > 0
            invariant
                n <= self.files@.len(),
                wanted@ == path@,
                forall|k: int| n <= k < self.files@.len() ==> (#[trigger] self.files@[k]).0@
                    != path@,
            decreases n,
        {
            if self.files[n - 1].0 == wanted {
                proof {
                    lemma_later_entries(self.files@, n as int, path@);
                    assert(self.files@.take(n as int).drop_last() =~= self.files@.take(n - 1));
                    assert(self.files@.take(n as int).last() == self.files@[n - 1]);
                }
                return Some(&self.files[n - 1].1);
            }
            n = n - 1;
        }
        proof {
            lemma_later_entries(self.files@, 0, path@);
            assert(self.files@.take(0) =~= Seq::<(String, Vec<u8>)>::empty());
        }
        None
    }
}

impl Default for Typst {
    fn default() -> (t: Typst)
        ensures
            t@ == Map::<Seq<char>, Seq<u8>>::empty(),
    {
        Typst::new()
    }
}

} // verus!
