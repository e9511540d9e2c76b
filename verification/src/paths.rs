use vstd::prelude::*;

use crate::text::{find_last, last_index_of, lemma_last_index_of, str_eq};

verus! {

/// The path separator this library understands.
pub open spec fn sep() -> char {
    '/'
}

/// The base name of a path: everything after the last separator, or the
/// whole path if it has none.
pub open spec fn base_name_of(p: Seq<char>) -> Seq<char> {
    p.subrange(last_index_of(p, sep()) + 1, p.len() as int)
}

/// The extension of a path: everything in the base name after its last dot.
/// A base name without a dot, or whose only dot starts it (a hidden file),
/// has no extension.
pub open spec fn extension_of(p: Seq<char>) -> Option<Seq<char>> {
    let b = base_name_of(p);
    let d = last_index_of(b, '.');
    if d <= 0 {
        None
    } else {
        Some(b.subrange(d + 1, b.len() as int))
    }
}

/// The containing directory of a path: everything before the last
/// separator, or nothing if the path has none.
pub open spec fn parent_of(p: Seq<char>) -> Option<Seq<char>> {
    let i = last_index_of(p, sep());
    if i < 0 {
        None
    } else {
        Some(p.subrange(0, i))
    }
}

/// A root path with its trailing separators removed.
pub open spec fn trim_seps(r: Seq<char>) -> Seq<char>
    decreases r.len(),
{
    if r.len() > 0 && r[r.len() - 1] == sep() {
        trim_seps(r.drop_last())
    } else {
        r
    }
}

/// A path with its leading separators removed.
pub open spec fn trim_leading_seps(s: Seq<char>) -> Seq<char>
    decreases s.len(),
{
    if s.len() > 0 && s[0] == sep() {
        trim_leading_seps(s.subrange(1, s.len() as int))
    } else {
        s
    }
}

/// A run of `k` separators.
pub open spec fn seps(k: nat) -> Seq<char> {
    Seq::new(k, |i: int| sep())
}

/// `trim_leading_seps` keeps exactly the suffix after the leading run of
/// separators, and that suffix starts with a non-separator if it is
/// nonempty.
pub proof fn lemma_trim_leading_seps(s: Seq<char>)
    ensures
        trim_leading_seps(s).len() <= s.len(),
        trim_leading_seps(s) == s.subrange(
            s.len() - trim_leading_seps(s).len(),
            s.len() as int,
        ),
        trim_leading_seps(s).len() > 0 ==> trim_leading_seps(s)[0] != sep(),
        forall|j: int| 0 <= j < s.len() - trim_leading_seps(s).len() ==> s[j] == sep(),
    decreases s.len(),
{
    if s.len() > 0 && s[0] == sep() {
        let tail = s.subrange(1, s.len() as int);
        lemma_trim_leading_seps(tail);
        let t = trim_leading_seps(s);
        assert(tail.subrange(tail.len() - t.len(), tail.len() as int) =~= s.subrange(
            s.len() - t.len(),
            s.len() as int,
        ));
        assert forall|j: int| 0 <= j < s.len() - t.len() implies s[j] == sep() by {
            if j > 0 {
                assert(tail[j - 1] == sep());
            }
        }
    } else {
        assert(s.subrange(0, s.len() as int) =~= s);
    }
}

/// Where the leading run of separators ends at `k`, `trim_leading_seps`
/// is the suffix from `k` on.
pub proof fn lemma_trim_leading_seps_at(s: Seq<char>, k: int)
    requires
        0 <= k <= s.len(),
        forall|j: int| 0 <= j < k ==> s[j] == sep(),
        k < s.len() ==> s[k] != sep(),
    ensures
        trim_leading_seps(s) == s.subrange(k, s.len() as int),
    decreases k,
{
    if k == 0 {
        assert(s.subrange(0, s.len() as int) =~= s);
    } else {
        let tail = s.subrange(1, s.len() as int);
        lemma_trim_leading_seps_at(tail, k - 1);
        assert(tail.subrange(k - 1, tail.len() as int) =~= s.subrange(k, s.len() as int));
    }
}

/// The containing directory of `p`, relative to `root`: nothing when the
/// parent is the root itself — with or without redundant trailing
/// separators — or is not under the root at all; otherwise the nonempty
/// path of the parent below the root, its leading separators removed.
/// This reproduces component-wise relativization on the path text the
/// walk builds, where entry names carry no separator and joins onto the
/// root as given add single ones.
pub open spec fn rel_folder_of(root: Seq<char>, p: Seq<char>) -> Option<Seq<char>> {
    match parent_of(p) {
        None => None,
        Some(par) => {
            let nr = trim_seps(root);
            if par == nr {
                None
            } else if par.len() > nr.len() && par.subrange(0, nr.len() as int) == nr
                && par[nr.len() as int] == sep() {
                let rem = trim_leading_seps(par.subrange(nr.len() as int, par.len() as int));
                if rem.len() == 0 {
                    None
                } else {
                    Some(rem)
                }
            } else {
                None
            }
        },
    }
}

/// The base name of `p`, per `base_name_of`.
pub fn base_name(p: &str) -> (r: String)
    ensures
        r@ == base_name_of(p@),
{
    proof {
        lemma_last_index_of(p@, sep());
    }
    let n = p.unicode_len();
    match find_last(p, '/') {
        Some(i) => p.substring_char(i + 1, n).to_owned(),
        None => {
            proof {
                assert(p@.subrange(0, p@.len() as int) =~= p@);
            }
            p.to_owned()
        },
    }
}

/// The extension of `p`, per `extension_of`.
pub fn extension_text(p: &str) -> (r: Option<String>)
    ensures
        match r {
            Some(e) => extension_of(p@) == Some(e@),
            None => extension_of(p@) is None,
        },
{
    let b = base_name(p);
    let bs = b.as_str();
    proof {
        lemma_last_index_of(bs@, '.');
    }
    let blen = bs.unicode_len();
    match find_last(bs, '.') {
        Some(d) => {
            if d > 0 {
                Some(bs.substring_char(d + 1, blen).to_owned())
            } else {
                None
            }
        },
        None => None,
    }
}

/// The root with trailing separators removed, per `trim_seps`.
fn trimmed_root(root: &str) -> (r: String)
    ensures
        r@ == trim_seps(root@),
{
    let n = root.unicode_len();
    let mut k: usize = n;
    proof {
        assert(root@.subrange(0, n as int) =~= root@);
    }
    while k > 0 && root.get_char(k - 1) == '/'
        invariant
            k <= n,
            n == root@.len(),
            trim_seps(root@) == trim_seps(root@.subrange(0, k as int)),
        decreases k,
    {
        proof {
            assert(root@.subrange(0, k as int).drop_last() =~= root@.subrange(0, k - 1));
        }
        k = k - 1;
    }
    root.substring_char(0, k).to_owned()
}

/// The containing directory of `p` relative to `root`, per `rel_folder_of`.
pub fn rel_folder(root: &str, p: &str) -> (r: Option<String>)
    ensures
        match r {
            Some(f) => rel_folder_of(root@, p@) == Some(f@),
            None => rel_folder_of(root@, p@) is None,
        },
{
    proof {
        lemma_last_index_of(p@, sep());
    }
    match find_last(p, '/') {
        None => None,
        Some(i) => {
            let par = p.substring_char(0, i);
            let nr = trimmed_root(root);
            let nrs = nr.as_str();
            let nrlen = nrs.unicode_len();
            let parlen = par.unicode_len();
            if str_eq(par, nrs) {
                None
            } else if parlen > nrlen && str_eq(par.substring_char(0, nrlen), nrs)
                && par.get_char(nrlen) == '/' {
                let mut s: usize = nrlen;
                while s < parlen && par.get_char(s) == '/'
                    invariant
                        nrlen <= s <= parlen,
                        parlen == par@.len(),
                        forall|j: int| nrlen <= j < s ==> par@[j] == sep(),
                    decreases parlen - s,
                {
                    s = s + 1;
                }
                proof {
                    let rem = par@.subrange(nrlen as int, parlen as int);
                    lemma_trim_leading_seps_at(rem, s - nrlen);
                    assert(rem.subrange(s - nrlen, rem.len() as int) =~= par@.subrange(
                        s as int,
                        parlen as int,
                    ));
                }
                if s == parlen {
                    None
                } else {
                    Some(par.substring_char(s, parlen).to_owned())
                }
            } else {
                None
            }
        },
    }
}

} // verus!
