//! Paths as the protocol layer reads them: the text of a local path, its
//! file name and extension.  Actual file-system access (canonicalising,
//! listing, reading, writing) is the embedding application's business.

use vstd::prelude::*;
use vstd::string::{StrSliceExecFns, StringExecFns};

verus! {

/// The local file system; its directory walking lives outside the library.
#[derive(Clone, Copy, Debug, PartialEq, Eq, Structural)]
pub struct LocalFs {}

/// A path on the local file system, kept as its text.
#[derive(Debug)]
pub struct LocalPath {
    inner: String,
}

/// The index of the last occurrence of `c`.
pub open spec fn spec_last_index_of(s: Seq<char>, c: char) -> Option<int>
    decreases s.len(),
{
    if s.len() == 0 {
        None
    } else if s.last() == c {
        Some(s.len() - 1)
    } else {
        spec_last_index_of(s.drop_last(), c)
    }
}

pub proof fn lemma_last_index_of_props(s: Seq<char>, c: char)
    ensures
        match spec_last_index_of(s, c) {
            Some(i) => 0 <= i < s.len() && s[i] == c && forall|j: int|
                i < j < s.len() ==> s[j] != c,
            None => forall|j: int| 0 <= j < s.len() ==> s[j] != c,
        },
    decreases s.len(),
{
    if s.len() == 0 {
    } else if s.last() == c {
    } else {
        lemma_last_index_of_props(s.drop_last(), c);
        let t = s.drop_last();
        assert(forall|j: int| 0 <= j < t.len() ==> t[j] == s[j]);
    }
}

/// The file name: everything after the last separator (the whole text when
/// there is none, empty when the path ends in a separator).
pub open spec fn spec_file_name(s: Seq<char>) -> Seq<char> {
    match spec_last_index_of(s, '/') {
        Some(i) => s.skip(i + 1),
        None => s,
    }
}

/// The extension: what follows the last dot of the file name, provided that
/// dot is neither the name's first character nor missing.
pub open spec fn spec_extension(s: Seq<char>) -> Option<Seq<char>> {
    let name = spec_file_name(s);
    match spec_last_index_of(name, '.') {
        Some(i) => if i > 0 {
            Some(name.skip(i + 1))
        } else {
            None
        },
        None => None,
    }
}

/// Scans for the last occurrence of `c` in `s`.
fn last_index_of(s: &str, c: char) -> (r: Option<usize>)
    ensures
        match r {
            Some(i) => spec_last_index_of(s@, c) == Some(i as int),
            None => spec_last_index_of(s@, c) is None,
        },
{
    proof {
        lemma_last_index_of_props(s@, c);
    }
    let n = s.unicode_len();
    let mut i: usize = n;
    while i > 0
        invariant
            i <= n,
            n == s@.len(),
            forall|j: int| i <= j < s@.len() ==> s@[j] != c,
        decreases i,
    {
        i = i - 1;
        if s.get_char(i) == c {
            proof {
                lemma_last_index_of_props(s@, c);
                match spec_last_index_of(s@, c) {
                    Some(k) => {
                        if k < i {
                            assert(s@[i as int] != c);
                        }
                        if k > i {
                            assert(s@[k] != c);
                        }
                    },
                    None => {
                        assert(s@[i as int] != c);
                    },
                }
            }
            return Some(i);
        }
    }
    proof {
        lemma_last_index_of_props(s@, c);
        if spec_last_index_of(s@, c) is Some {
            let k = spec_last_index_of(s@, c)->Some_0;
            assert(s@[k] != c);
        }
    }
    None
}

impl LocalPath {
    /// The path's text.
    pub closed spec fn spec_text(self) -> Seq<char> {
        self.inner@
    }

    pub fn new(text: String) -> (r: LocalPath)
        ensures
            r.spec_text() == text@,
    {
        LocalPath { inner: text }
    }

    pub fn duplicate(&self) -> (r: LocalPath)
        ensures
            r.spec_text() == self.spec_text(),
    {
        LocalPath { inner: self.inner.clone() }
    }

    pub fn as_text(&self) -> (r: &str)
        ensures
            r@ == self.spec_text(),
    {
        self.inner.as_str()
    }

    /// The file name, per `spec_file_name`.
    pub fn file_name(&self) -> (r: String)
        ensures
            r@ == spec_file_name(self.spec_text()),
    {
        let s = self.inner.as_str();
        let n = s.unicode_len();
        match last_index_of(s, '/') {
            Some(i) => {
                proof {
                    lemma_last_index_of_props(s@, '/');
                }
                let part = s.substring_char(i + 1, n);
                proof {
                    assert(part@ =~= spec_file_name(self.spec_text()));
                }
                String::from_str(part)
            },
            None => String::from_str(s),
        }
    }

    /// The extension, per `spec_extension`.
    pub fn extension(&self) -> (r: Option<String>)
        ensures
            match r {
                Some(e) => spec_extension(self.spec_text()) == Some(e@),
                None => spec_extension(self.spec_text()) is None,
            },
    {
        let name = self.file_name();
        let s = name.as_str();
        let n = s.unicode_len();
        match last_index_of(s, '.') {
            Some(i) => {
                if i > 0 {
                    proof {
                        lemma_last_index_of_props(s@, '.');
                    }
                    let part = s.substring_char(i + 1, n);
                    Some(String::from_str(part))
                } else {
                    None
                }
            },
            None => None,
        }
    }
}

} // verus!
