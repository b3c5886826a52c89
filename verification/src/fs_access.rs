//! The file-system operations the launcher needs, behind a trait so that a
//! real disk and an in-memory tree can both stand behind them.

use vstd::prelude::*;

use crate::text::str_equal;

verus! {

/// An error reported by a file-system operation.
#[derive(Debug)]
pub struct FsError {
    pub message: String,
}

/// File-system access.
///
/// A file system may describe itself by the spec functions below and say so
/// with `obeys_fs_spec`; its answers must then agree with them. By default
/// it does not, and nothing is assumed of its answers: a real disk can
/// change between two questions. The library's functions are verified for
/// every answer, and what they state of a file system that obeys the spec
/// holds of every such file system.
pub trait Fs {
    /// Whether this file system answers as its spec functions say.
    open spec fn obeys_fs_spec(&self) -> bool {
        false
    }

    /// Whether there is a file at `path`.
    open spec fn file_at(&self, path: Seq<char>) -> bool {
        false
    }

    /// Whether there is a directory at `path`.
    open spec fn dir_at(&self, path: Seq<char>) -> bool {
        false
    }

    /// The full paths of the entries of directory `dir`, in listing order,
    /// or `None` when it cannot be listed.
    open spec fn listing(&self, dir: Seq<char>) -> Option<Seq<Seq<char>>> {
        None
    }

    /// The canonical form of `path`, or `None` when it has none.
    open spec fn canonical(&self, path: Seq<char>) -> Option<Seq<char>> {
        None
    }

    /// The full paths of the entries of directory `dir`.
    fn read_dir_paths(&self, dir: &str) -> (r: Result<Vec<String>, FsError>)
        ensures
            self.obeys_fs_spec() ==> match r {
                Ok(v) => self.listing(dir@) == Some(v@.map_values(|s: String| s@)),
                Err(_) => self.listing(dir@) is None,
            },
    ;

    fn is_dir(&self, path: &str) -> (r: bool)
        ensures
            self.obeys_fs_spec() ==> r == self.dir_at(path@),
    ;

    fn is_file(&self, path: &str) -> (r: bool)
        ensures
            self.obeys_fs_spec() ==> r == self.file_at(path@),
    ;

    fn write(&self, path: &str, contents: &[u8]) -> Result<(), FsError>;

    fn canonicalize(&self, path: &str) -> (r: Result<String, FsError>)
        ensures
            self.obeys_fs_spec() ==> match r {
                Ok(c) => self.canonical(path@) == Some(c@),
                Err(_) => self.canonical(path@) is None,
            },
    ;

    fn set_executable(&self, path: &str) -> Result<(), FsError>;
}

/// A read-only file tree held in memory: its files, and its directories
/// with their entries. Every path is canonical as written.
pub struct MemFs {
    pub files: Vec<String>,
    pub dirs: Vec<(String, Vec<String>)>,
}

/// Index of the first directory named `d`, or -1.
pub open spec fn mem_dir_index(dirs: Seq<(String, Vec<String>)>, d: Seq<char>) -> int
    decreases dirs.len(),
{
    if dirs.len() == 0 {
        -1
    } else if mem_dir_index(dirs.drop_last(), d) >= 0 {
        mem_dir_index(dirs.drop_last(), d)
    } else if dirs.last().0@ == d {
        dirs.len() - 1
    } else {
        -1
    }
}

proof fn lemma_mem_dir_index(dirs: Seq<(String, Vec<String>)>, d: Seq<char>)
    ensures
        -1 <= mem_dir_index(dirs, d) < dirs.len(),
        mem_dir_index(dirs, d) >= 0 ==> dirs[mem_dir_index(dirs, d)].0@ == d,
        mem_dir_index(dirs, d) == -1 ==> forall|i: int|
            0 <= i < dirs.len() ==> #[trigger] dirs[i].0@ != d,
        forall|i: int| 0 <= i < mem_dir_index(dirs, d) ==> #[trigger] dirs[i].0@ != d,
    decreases dirs.len(),
{
    if dirs.len() > 0 {
        lemma_mem_dir_index(dirs.drop_last(), d);
        let p = dirs.drop_last();
        assert forall|i: int| 0 <= i < p.len() implies #[trigger] dirs[i] == p[i] by {}
    }
}

proof fn lemma_mem_dir_index_first(dirs: Seq<(String, Vec<String>)>, d: Seq<char>, k: int)
    requires
        0 <= k < dirs.len(),
        dirs[k].0@ == d,
        forall|i: int| 0 <= i < k ==> #[trigger] dirs[i].0@ != d,
    ensures
        mem_dir_index(dirs, d) == k,
    decreases dirs.len(),
{
    lemma_mem_dir_index(dirs, d);
    if k < dirs.len() - 1 {
        let p = dirs.drop_last();
        assert(p[k] == dirs[k]);
        assert forall|i: int| 0 <= i < k implies #[trigger] p[i].0@ != d by {
            assert(p[i] == dirs[i]);
        }
        lemma_mem_dir_index_first(p, d, k);
    }
}

impl MemFs {
    /// Index of the first directory named `d`.
    fn find_dir(&self, d: &str) -> (r: Option<usize>)
        ensures
            match r {
                Some(k) => k == mem_dir_index(self.dirs@, d@),
                None => mem_dir_index(self.dirs@, d@) == -1,
            },
    {
        let mut i: usize = 0;
        while i < self.dirs.len()
            invariant
                i <= self.dirs.len(),
                forall|j: int| 0 <= j < i ==> #[trigger] self.dirs@[j].0@ != d@,
            decreases self.dirs.len() - i,
        {
            if str_equal(self.dirs[i].0.as_str(), d) {
                proof {
                    lemma_mem_dir_index_first(self.dirs@, d@, i as int);
                }
                return Some(i);
            }
            i = i + 1;
        }
        proof {
            lemma_mem_dir_index(self.dirs@, d@);
            if mem_dir_index(self.dirs@, d@) >= 0 {
                assert(self.dirs@[mem_dir_index(self.dirs@, d@)].0@ == d@);
            }
        }
        None
    }
}

impl Fs for MemFs {
    open spec fn obeys_fs_spec(&self) -> bool {
        true
    }

    open spec fn file_at(&self, path: Seq<char>) -> bool {
        exists|i: int| 0 <= i < self.files@.len() && #[trigger] self.files@[i]@ == path
    }

    open spec fn dir_at(&self, path: Seq<char>) -> bool {
        mem_dir_index(self.dirs@, path) >= 0
    }

    open spec fn listing(&self, dir: Seq<char>) -> Option<Seq<Seq<char>>> {
        let k = mem_dir_index(self.dirs@, dir);
        if k >= 0 {
            Some(self.dirs@[k].1@.map_values(|s: String| s@))
        } else {
            None
        }
    }

    open spec fn canonical(&self, path: Seq<char>) -> Option<Seq<char>> {
        Some(path)
    }

    fn read_dir_paths(&self, dir: &str) -> (r: Result<Vec<String>, FsError>) {
        proof {
            lemma_mem_dir_index(self.dirs@, dir@);
        }
        match self.find_dir(dir) {
            Some(k) => {
                let mut v: Vec<String> = Vec::new();
                let entries = &self.dirs[k].1;
                let mut i: usize = 0;
                while i < entries.len()
                    invariant
                        i <= entries.len(),
                        v@.map_values(|s: String| s@) == entries@.map_values(
                            |s: String| s@,
                        ).take(i as int),
                    decreases entries.len() - i,
                {
                    let ghost before = v@.map_values(|s: String| s@);
                    v.push(entries[i].clone());
                    assert(v@.map_values(|s: String| s@) =~= before.push(entries@[i as int]@));
                    assert(entries@.map_values(|s: String| s@).take(i + 1) =~= entries@.map_values(
                        |s: String| s@,
                    ).take(i as int).push(entries@[i as int]@));
                    i = i + 1;
                }
                assert(entries@.map_values(|s: String| s@).take(entries.len() as int)
                    =~= entries@.map_values(|s: String| s@));
                Ok(v)
            },
            None => Err(FsError { message: String::from_str("not a directory") }),
        }
    }

    fn is_dir(&self, path: &str) -> (r: bool) {
        self.find_dir(path).is_some()
    }

    fn is_file(&self, path: &str) -> (r: bool) {
        let mut i: usize = 0;
        while i < self.files.len()
            invariant
                i <= self.files.len(),
                forall|j: int| 0 <= j < i ==> #[trigger] self.files@[j]@ != path@,
            decreases self.files.len() - i,
        {
            if str_equal(self.files[i].as_str(), path) {
                return true;
            }
            i = i + 1;
        }
        false
    }

    fn write(&self, path: &str, contents: &[u8]) -> Result<(), FsError> {
        Err(FsError { message: String::from_str("read-only file system") })
    }

    fn canonicalize(&self, path: &str) -> (r: Result<String, FsError>) {
        Ok(String::from_str(path))
    }

    fn set_executable(&self, path: &str) -> Result<(), FsError> {
        Ok(())
    }
}

} // verus!
