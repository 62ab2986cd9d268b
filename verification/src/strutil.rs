use vstd::prelude::*;

verus! {

// --- Specification-level helpers over sequences of characters ---

/// Index of the first occurrence of `c` in `s`, or `s.len()` when absent.
pub open spec fn first_ix(s: Seq<char>, c: char) -> int
    decreases s.len(),
{
    if s.len() == 0 {
        0
    } else if s[0] == c {
        0
    } else {
        1 + first_ix(s.skip(1), c)
    }
}

/// What it means for `i` to be the first occurrence of `c` in `s`
/// (`i == s.len()` when `c` does not occur).
pub open spec fn is_first_ix(s: Seq<char>, c: char, i: int) -> bool {
    &&& 0 <= i <= s.len()
    &&& i < s.len() ==> s[i] == c
    &&& forall|j: int| 0 <= j < i ==> s[j] != c
}

pub proof fn lemma_first_ix_is(s: Seq<char>, c: char)
    ensures
        is_first_ix(s, c, first_ix(s, c)),
    decreases s.len(),
{
    if s.len() == 0 {
    } else if s[0] == c {
    } else {
        lemma_first_ix_is(s.skip(1), c);
        assert forall|j: int| 0 <= j < first_ix(s, c) implies s[j] != c by {
            if j > 0 {
                assert(s.skip(1)[j - 1] == s[j]);
            }
        }
    }
}

pub proof fn lemma_first_ix_unique(s: Seq<char>, c: char, i: int, j: int)
    requires
        is_first_ix(s, c, i),
        is_first_ix(s, c, j),
    ensures
        i == j,
{
}

/// `p` is a prefix of `s`.
pub open spec fn has_prefix(s: Seq<char>, p: Seq<char>) -> bool {
    p.len() <= s.len() && s.take(p.len() as int) == p
}

// --- Executable helpers, proved against the helpers above ---

/// Index of the first occurrence of `c` in `s`, or the length of `s`.
pub fn first_index_of(s: &str, c: char) -> (r: usize)
    ensures
        r as int == first_ix(s@, c),
        is_first_ix(s@, c, r as int),
{
    proof {
        lemma_first_ix_is(s@, c);
    }
    let n = s.unicode_len();
    let mut i: usize = 0;
    while i < n
        invariant
            n == s@.len(),
            0 <= i <= n,
            forall|j: int| 0 <= j < i ==> s@[j] != c,
        decreases n - i,
    {
        if s.get_char(i) == c {
            proof {
                lemma_first_ix_is(s@, c);
                lemma_first_ix_unique(s@, c, first_ix(s@, c), i as int);
            }
            return i;
        }
        i = i + 1;
    }
    proof {
        lemma_first_ix_unique(s@, c, first_ix(s@, c), n as int);
    }
    n
}

/// Whether the views of `a` and `b` are the same sequence of characters.
pub fn str_eq(a: &str, b: &str) -> (r: bool)
    ensures
        r == (a@ == b@),
{
    let na = a.unicode_len();
    let nb = b.unicode_len();
    if na != nb {
        assert(a@ != b@);
        return false;
    }
    let mut i: usize = 0;
    while i < na
        invariant
            na == a@.len(),
            na == b@.len(),
            0 <= i <= na,
            forall|j: int| 0 <= j < i ==> a@[j] == b@[j],
        decreases na - i,
    {
        if a.get_char(i) != b.get_char(i) {
            assert(a@ != b@);
            return false;
        }
        i = i + 1;
    }
    assert(a@ =~= b@);
    true
}

/// Whether `p`'s view is a prefix of `s`'s view.
pub fn str_has_prefix(s: &str, p: &str) -> (r: bool)
    ensures
        r == has_prefix(s@, p@),
{
    let ns = s.unicode_len();
    let np = p.unicode_len();
    if np > ns {
        return false;
    }
    let mut i: usize = 0;
    while i < np
        invariant
            ns == s@.len(),
            np == p@.len(),
            np <= ns,
            0 <= i <= np,
            forall|j: int| 0 <= j < i ==> s@[j] == p@[j],
        decreases np - i,
    {
        if s.get_char(i) != p.get_char(i) {
            assert(s@.take(np as int)[i as int] != p@[i as int]);
            return false;
        }
        i = i + 1;
    }
    assert(s@.take(np as int) =~= p@);
    true
}

/// `p` is a suffix of `s`.
pub open spec fn has_suffix(s: Seq<char>, p: Seq<char>) -> bool {
    p.len() <= s.len() && s.skip(s.len() - p.len()) == p
}

/// Whether `p`'s view is a suffix of `s`'s view.
pub fn str_has_suffix(s: &str, p: &str) -> (r: bool)
    ensures
        r == has_suffix(s@, p@),
{
    let ns = s.unicode_len();
    let np = p.unicode_len();
    if np > ns {
        return false;
    }
    let mut i: usize = 0;
    while i < np
        invariant
            ns == s@.len(),
            np == p@.len(),
            np <= ns,
            0 <= i <= np,
            forall|j: int| 0 <= j < i ==> s@[ns - np + j] == p@[j],
        decreases np - i,
    {
        if s.get_char(ns - np + i) != p.get_char(i) {
            assert(s@.skip(ns as int - np as int)[i as int] != p@[i as int]);
            return false;
        }
        i = i + 1;
    }
    assert(s@.skip(ns as int - np as int) =~= p@);
    true
}

/// `c` does not occur in `s`.
pub open spec fn lacks(s: Seq<char>, c: char) -> bool {
    forall|i: int| 0 <= i < s.len() ==> s[i] != c
}

/// In a concatenation whose first part lacks `c`, the first occurrence
/// of `c` is the first occurrence in the second part, shifted.
pub proof fn lemma_first_ix_concat(a: Seq<char>, b: Seq<char>, c: char)
    requires
        lacks(a, c),
    ensures
        first_ix(a + b, c) == a.len() + first_ix(b, c),
{
    lemma_first_ix_is(b, c);
    let i = first_ix(b, c);
    assert forall|j: int| 0 <= j < a.len() + i implies (a + b)[j] != c by {
        if j < a.len() {
            assert((a + b)[j] == a[j]);
        } else {
            assert((a + b)[j] == b[j - a.len()]);
        }
    }
    assert(is_first_ix(a + b, c, a.len() + i));
    lemma_first_ix_is(a + b, c);
    lemma_first_ix_unique(a + b, c, first_ix(a + b, c), a.len() + i);
}

/// A sequence lacking `c` has no first occurrence short of its length.
pub proof fn lemma_first_ix_absent(s: Seq<char>, c: char)
    requires
        lacks(s, c),
    ensures
        first_ix(s, c) == s.len(),
{
    lemma_first_ix_is(s, c);
    lemma_first_ix_unique(s, c, first_ix(s, c), s.len() as int);
}

/// Lacking a character is preserved by concatenation.
pub proof fn lemma_lacks_concat(a: Seq<char>, b: Seq<char>, c: char)
    requires
        lacks(a, c),
        lacks(b, c),
    ensures
        lacks(a + b, c),
{
    assert forall|i: int| 0 <= i < (a + b).len() implies (a + b)[i] != c by {
        if i < a.len() {
            assert((a + b)[i] == a[i]);
        } else {
            assert((a + b)[i] == b[i - a.len()]);
        }
    }
}

/// No two adjacent occurrences of `c`.
pub open spec fn no_adjacent(s: Seq<char>, c: char) -> bool {
    forall|i: int| 0 <= i < s.len() - 1 ==> !(#[trigger] s[i] == c && s[i + 1] == c)
}

/// Freedom from adjacent occurrences is preserved by concatenation when
/// the seam is clean.
pub proof fn lemma_no_adjacent_concat(a: Seq<char>, b: Seq<char>, c: char)
    requires
        no_adjacent(a, c),
        no_adjacent(b, c),
        a.len() > 0 && b.len() > 0 ==> !(a[a.len() - 1] == c && b[0] == c),
    ensures
        no_adjacent(a + b, c),
{
    assert forall|i: int| 0 <= i < (a + b).len() - 1 implies !(#[trigger] (a + b)[i] == c && (a
        + b)[i + 1] == c) by {
        if i + 1 < a.len() {
            assert((a + b)[i] == a[i] && (a + b)[i + 1] == a[i + 1]);
        } else if i + 1 == a.len() {
            assert((a + b)[i] == a[i] && (a + b)[i + 1] == b[0]);
        } else {
            assert((a + b)[i] == b[i - a.len()] && (a + b)[i + 1] == b[i + 1 - a.len()]);
        }
    }
}

} // verus!
