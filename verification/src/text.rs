use vstd::prelude::*;

verus! {

/// ASCII lowercasing of a single character; everything outside `A`..=`Z`
/// is left unchanged.
pub open spec fn lower_char(c: char) -> char {
    if 'A' <= c && c <= 'Z' {
        ((c as u8) + 32) as char
    } else {
        c
    }
}

/// Character-wise ASCII lowercasing of a character sequence.
pub open spec fn lower_seq(s: Seq<char>) -> Seq<char> {
    s.map_values(|c: char| lower_char(c))
}

/// Index of the last occurrence of `c` in `s`, or `-1` if `c` does not occur.
pub open spec fn last_index_of(s: Seq<char>, c: char) -> int
    decreases s.len(),
{
    if s.len() == 0 {
        -1
    } else if s[s.len() - 1] == c {
        s.len() - 1
    } else {
        last_index_of(s.drop_last(), c)
    }
}

/// `last_index_of` lands in range, on an occurrence of `c`, and nothing
/// after it is an occurrence.
pub proof fn lemma_last_index_of(s: Seq<char>, c: char)
    ensures
        -1 <= last_index_of(s, c) < s.len(),
        last_index_of(s, c) >= 0 ==> s[last_index_of(s, c)] == c,
        forall|j: int| last_index_of(s, c) < j < s.len() ==> s[j] != c,
    decreases s.len(),
{
    if s.len() > 0 && s[s.len() - 1] != c {
        lemma_last_index_of(s.drop_last(), c);
        assert forall|j: int| last_index_of(s, c) < j < s.len() implies s[j] != c by {
            if j < s.len() - 1 {
                assert(s.drop_last()[j] != c);
            }
        }
    }
}

/// An occurrence with nothing after it is the last occurrence.
pub proof fn lemma_last_index_at(s: Seq<char>, c: char, i: int)
    requires
        0 <= i < s.len(),
        s[i] == c,
        forall|j: int| i < j < s.len() ==> s[j] != c,
    ensures
        last_index_of(s, c) == i,
    decreases s.len(),
{
    if i < s.len() - 1 {
        lemma_last_index_at(s.drop_last(), c, i);
    }
}

/// With no occurrence at all, `last_index_of` is `-1`.
pub proof fn lemma_last_index_missing(s: Seq<char>, c: char)
    requires
        forall|j: int| 0 <= j < s.len() ==> s[j] != c,
    ensures
        last_index_of(s, c) == -1,
    decreases s.len(),
{
    if s.len() > 0 {
        lemma_last_index_missing(s.drop_last(), c);
    }
}

pub fn to_lower_char(c: char) -> (r: char)
    ensures
        r == lower_char(c),
{
    if 'A' <= c && c <= 'Z' {
        ((c as u8) + 32) as char
    } else {
        c
    }
}

/// Position of the last occurrence of `c` in `s`, if any.
pub fn find_last(s: &str, c: char) -> (r: Option<usize>)
    ensures
        match r {
            Some(i) => i < s@.len() && last_index_of(s@, c) == i as int,
            None => last_index_of(s@, c) == -1,
        },
{
    let n = s.unicode_len();
    let mut i: usize = n;
    while i > 0
        invariant
            i <= n,
            n == s@.len(),
            forall|j: int| i <= j < s@.len() ==> s@[j] != c,
        decreases i,
    {
        i = i - 1;
        if s.get_char(i) == c {
            proof {
                lemma_last_index_at(s@, c, i as int);
            }
            return Some(i);
        }
    }
    proof {
        lemma_last_index_missing(s@, c);
    }
    None
}

/// Character-wise equality of two text slices.
pub fn str_eq(a: &str, b: &str) -> (r: bool)
    ensures
        r == (a@ == b@),
{
    let n = a.unicode_len();
    if n != b.unicode_len() {
        return false;
    }
    let mut i: usize = 0;
    while i < n
        invariant
            i <= n,
            n == a@.len(),
            n == b@.len(),
            forall|j: int| 0 <= j < i ==> a@[j] == b@[j],
        decreases n - i,
    {
        if a.get_char(i) != b.get_char(i) {
            return false;
        }
        i = i + 1;
    }
    proof {
        assert(a@ =~= b@);
    }
    true
}

/// Whether ASCII-lowercasing `a` yields exactly `b`.
pub fn eq_lowered(a: &str, b: &str) -> (r: bool)
    ensures
        r == (lower_seq(a@) == b@),
{
    let n = a.unicode_len();
    if n != b.unicode_len() {
        proof {
            assert(lower_seq(a@).len() == a@.len());
        }
        return false;
    }
    let mut i: usize = 0;
    while i < n
        invariant
            i <= n,
            n == a@.len(),
            n == b@.len(),
            forall|j: int| 0 <= j < i ==> lower_char(a@[j]) == b@[j],
        decreases n - i,
    {
        if to_lower_char(a.get_char(i)) != b.get_char(i) {
            proof {
                assert(lower_seq(a@)[i as int] == lower_char(a@[i as int]));
            }
            return false;
        }
        i = i + 1;
    }
    proof {
        assert(lower_seq(a@) =~= b@);
    }
    true
}

} // verus!
