use vstd::prelude::*;

use crate::paths::{
    base_name_of, extension_of, lemma_trim_leading_seps, parent_of, rel_folder_of, sep, seps,
    trim_seps,
};

verus! {

/// One music file found by a scan.
#[derive(Debug, Clone, PartialEq, Eq)]
pub struct MusicFile {
    /// The file's path as the walk visited it.
    pub path: String,
    /// The file's base name, extension included.
    pub name: String,
    /// The extension as found (not lowercased); empty if the file somehow
    /// has none.
    pub extension: String,
    /// The containing directory relative to the scanned root; absent for a
    /// file directly in the root.
    pub folder: Option<String>,
}

/// The mathematical value of a `MusicFile`: each text field as a character
/// sequence.
#[verifier::ext_equal]
pub struct MusicFileView {
    pub path: Seq<char>,
    pub name: Seq<char>,
    pub extension: Seq<char>,
    pub folder: Option<Seq<char>>,
}

impl View for MusicFile {
    type V = MusicFileView;

    open spec fn view(&self) -> MusicFileView {
        MusicFileView {
            path: self.path@,
            name: self.name@,
            extension: self.extension@,
            folder: match self.folder {
                Some(f) => Some(f@),
                None => None,
            },
        }
    }
}

/// The record a scan rooted at `root` emits for a matched file at `p`.
pub open spec fn record_for(root: Seq<char>, p: Seq<char>) -> MusicFileView {
    MusicFileView {
        path: p,
        name: base_name_of(p),
        extension: match extension_of(p) {
            Some(e) => e,
            None => Seq::empty(),
        },
        folder: rel_folder_of(root, p),
    }
}

/// A present `folder` of a record is never empty, never starts with a
/// separator, and is exactly the record's parent directory with the root
/// prefix and the run of separators after it removed — so it never
/// carries the root's own prefix.
pub proof fn lemma_record_folder(root: Seq<char>, p: Seq<char>)
    ensures
        match record_for(root, p).folder {
            Some(f) => {
                let nr = trim_seps(root);
                let par = parent_of(p)->Some_0;
                let k = par.len() - nr.len() - f.len();
                &&& parent_of(p) is Some
                &&& f.len() > 0
                &&& f[0] != sep()
                &&& k >= 1
                &&& par == nr + seps(k as nat) + f
            },
            None => true,
        },
{
    match record_for(root, p).folder {
        Some(f) => {
            let nr = trim_seps(root);
            let par = parent_of(p)->Some_0;
            let rem = par.subrange(nr.len() as int, par.len() as int);
            lemma_trim_leading_seps(rem);
            let k = par.len() - nr.len() - f.len();
            assert(k >= 1) by {
                if k == 0 {
                    assert(f[0] == rem[0]);
                }
            }
            assert forall|j: int| 0 <= j < par.len() implies par[j] == (nr + seps(k as nat)
                + f)[j] by {
                if j < nr.len() {
                    assert(par.subrange(0, nr.len() as int)[j] == par[j]);
                } else if j < nr.len() + k {
                    assert(rem[j - nr.len()] == sep());
                } else {
                    assert(f[j - nr.len() - k] == rem[j - nr.len()]);
                }
            }
            assert(par =~= nr + seps(k as nat) + f);
        },
        None => {},
    }
}

} // verus!
