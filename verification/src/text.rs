//! Character-level helpers on strings, with their meaning stated over `Seq<char>`.
use vstd::prelude::*;
use vstd::string::*;

verus! {

/// `i` is the position of the first occurrence of `c` in `s`.
pub open spec fn is_first_index(s: Seq<char>, c: char, i: int) -> bool {
    &&& 0 <= i < s.len()
    &&& s[i] == c
    &&& forall|j: int| 0 <= j < i ==> s[j] != c
}

/// `s` split around the first occurrence of `sep`: the text before it and the text
/// after it; `None` where `sep` does not occur.
pub open spec fn split_once(s: Seq<char>, sep: char) -> Option<(Seq<char>, Seq<char>)> {
    if exists|i: int| is_first_index(s, sep, i) {
        let i = choose|i: int| is_first_index(s, sep, i);
        Some((s.take(i), s.skip(i + 1)))
    } else {
        None
    }
}

/// `s` cut at every occurrence of `sep`; there is always at least one piece.
pub open spec fn split_all(s: Seq<char>, sep: char) -> Seq<Seq<char>>
    decreases s.len(),
{
    if exists|i: int| is_first_index(s, sep, i) {
        let i = choose|i: int| is_first_index(s, sep, i);
        seq![s.take(i)] + split_all(s.skip(i + 1), sep)
    } else {
        seq![s]
    }
}

/// There is at most one first occurrence.
pub proof fn lemma_first_index_unique(s: Seq<char>, c: char, i: int, j: int)
    requires
        is_first_index(s, c, i),
        is_first_index(s, c, j),
    ensures
        i == j,
{
}

/// `split_once` cuts at the given first occurrence.
pub proof fn lemma_split_once_at(s: Seq<char>, sep: char, i: int)
    requires
        is_first_index(s, sep, i),
    ensures
        split_once(s, sep) == Some((s.take(i), s.skip(i + 1))),
        split_all(s, sep) == seq![s.take(i)] + split_all(s.skip(i + 1), sep),
{
    let k = choose|k: int| is_first_index(s, sep, k);
    lemma_first_index_unique(s, sep, i, k);
}

/// Without `sep`, nothing is cut.
pub proof fn lemma_split_none(s: Seq<char>, sep: char)
    requires
        !s.contains(sep),
    ensures
        split_once(s, sep) is None,
        split_all(s, sep) == seq![s],
{
    assert(!exists|i: int| is_first_index(s, sep, i)) by {
        assert forall|i: int| !is_first_index(s, sep, i) by {
            if is_first_index(s, sep, i) {
                assert(s.contains(sep));
            }
        }
    }
}

/// `split_once` cuts `kind` off the front exactly when `s` starts with `kind` and then
/// `sep`, for a `kind` without `sep`; the rest is then what follows that `sep`.
pub proof fn lemma_split_once_prefix(s: Seq<char>, kind: Seq<char>, sep: char)
    requires
        !kind.contains(sep),
    ensures
        (split_once(s, sep) matches Some((k, _)) && k == kind) <==> (s.len() > kind.len() && s.take(
            kind.len() + 1 as int,
        ) == kind.push(sep)),
        (s.len() > kind.len() && s.take(kind.len() + 1 as int) == kind.push(sep)) ==> split_once(s, sep)
            == Some((kind, s.skip(kind.len() + 1 as int))),
{
    let n = kind.len() as int;
    if s.len() > n && s.take(n + 1) == kind.push(sep) {
        assert(s.take(n + 1)[n] == sep);
        assert forall|j: int| 0 <= j < n implies s[j] != sep by {
            assert(s.take(n + 1)[j] == kind[j]);
            if s[j] == sep {
                assert(kind.contains(sep));
            }
        }
        assert(is_first_index(s, sep, n));
        lemma_split_once_at(s, sep, n);
        assert(s.take(n) =~= kind) by {
            assert forall|j: int| 0 <= j < n implies s.take(n)[j] == kind[j] by {
                assert(s.take(n + 1)[j] == kind[j]);
            }
        }
    }
    if exists|i: int| is_first_index(s, sep, i) {
        let i = choose|i: int| is_first_index(s, sep, i);
        lemma_split_once_at(s, sep, i);
        if s.take(i) == kind {
            assert(i == n);
            assert(s.take(n + 1) =~= kind.push(sep)) by {
                assert forall|j: int| 0 <= j < n implies s.take(n + 1)[j] == kind[j] by {
                    assert(s.take(i)[j] == s[j]);
                }
            }
        }
    }
}

/// Every occurrence has a first one.
pub proof fn lemma_first_index_exists(s: Seq<char>, c: char)
    requires
        s.contains(c),
    ensures
        exists|i: int| is_first_index(s, c, i),
    decreases s.len(),
{
    if s[0] == c {
        assert(is_first_index(s, c, 0));
    } else {
        let k = choose|k: int| 0 <= k < s.len() && s[k] == c;
        let rest = s.drop_first();
        assert(rest[k - 1] == c);
        lemma_first_index_exists(rest, c);
        let i = choose|i: int| is_first_index(rest, c, i);
        assert forall|j: int| 0 <= j < i + 1 implies s[j] != c by {
            if j > 0 {
                assert(s[j] == rest[j - 1]);
            }
        }
        assert(is_first_index(s, c, i + 1));
    }
}

/// Pieces put back together with `sep` between each two.
pub open spec fn join_with(pieces: Seq<Seq<char>>, sep: char) -> Seq<char>
    decreases pieces.len(),
{
    if pieces.len() == 0 {
        Seq::empty()
    } else if pieces.len() == 1 {
        pieces[0]
    } else {
        pieces[0] + seq![sep] + join_with(pieces.drop_first(), sep)
    }
}

/// Cutting at every `sep` gives at least one piece, no piece holds `sep`, and the pieces
/// joined with `sep` give back the whole text.
pub proof fn lemma_split_all_pieces(s: Seq<char>, sep: char)
    ensures
        split_all(s, sep).len() >= 1,
        forall|i: int| 0 <= i < split_all(s, sep).len() ==> !(#[trigger] split_all(s, sep)[i]).contains(sep),
        join_with(split_all(s, sep), sep) == s,
    decreases s.len(),
{
    if exists|i: int| is_first_index(s, sep, i) {
        let i = choose|i: int| is_first_index(s, sep, i);
        lemma_split_once_at(s, sep, i);
        let head = s.take(i);
        let tail = s.skip(i + 1);
        lemma_split_all_pieces(tail, sep);
        let pieces = split_all(s, sep);
        assert(pieces == seq![head] + split_all(tail, sep));
        assert(pieces.drop_first() =~= split_all(tail, sep));
        assert(!head.contains(sep)) by {
            if head.contains(sep) {
                let k = choose|k: int| 0 <= k < head.len() && head[k] == sep;
                assert(s[k] == sep);
            }
        }
        assert forall|j: int| 0 <= j < pieces.len() implies !(#[trigger] pieces[j]).contains(sep) by {
            if j > 0 {
                assert(pieces[j] == split_all(tail, sep)[j - 1]);
            }
        }
        assert(head + seq![sep] + tail =~= s);
    } else {
        if s.contains(sep) {
            lemma_first_index_exists(s, sep);
        }
        assert(split_all(s, sep) == seq![s]);
    }
}

/// Position of the first `c` in `s`, or `None` where there is none.
pub fn find_char(s: &str, c: char) -> (r: Option<usize>)
    ensures
        match r {
            Some(i) => is_first_index(s@, c, i as int),
            None => !s@.contains(c),
        },
{
    broadcast use vstd::string::group_string_axioms;
    let n = s.unicode_len();
    let mut i: usize = 0;
    for ch in it: s.chars()
        invariant
            n == s@.len(),
            it.seq() == s@,
            i == it.index(),
            forall|j: int| 0 <= j < i ==> s@[j] != c,
    {
        if ch == c {
            return Some(i);
        }
        i = i + 1;
    }
    assert(!s@.contains(c)) by {
        if s@.contains(c) {
            let k = choose|k: int| 0 <= k < s@.len() && s@[k] == c;
            assert(s@[k] != c);
        }
    }
    None
}

/// Splits `s` around the first `sep`.
pub fn split_once_str<'a>(s: &'a str, sep: char) -> (r: Option<(&'a str, &'a str)>)
    ensures
        match r {
            Some((before, after)) => split_once(s@, sep) == Some((before@, after@)),
            None => split_once(s@, sep) is None,
        },
{
    match find_char(s, sep) {
        Some(i) => {
            proof {
                lemma_split_once_at(s@, sep, i as int);
            }
            let n = s.unicode_len();
            let before = s.substring_char(0, i);
            let after = s.substring_char(i + 1, n);
            assert(before@ == s@.take(i as int));
            assert(after@ == s@.skip(i + 1));
            Some((before, after))
        },
        None => {
            proof {
                lemma_split_none(s@, sep);
            }
            None
        },
    }
}

/// Whether two strings hold the same characters.
pub fn str_eq(a: &str, b: &str) -> (r: bool)
    ensures
        r == (a@ == b@),
{
    let n = a.unicode_len();
    if n != b.unicode_len() {
        return false;
    }
    let mut i: usize = 0;
    while i < n
        invariant
            n == a@.len(),
            n == b@.len(),
            i <= n,
            forall|j: int| 0 <= j < i ==> a@[j] == b@[j],
        decreases n - i,
    {
        if a.get_char(i) != b.get_char(i) {
            return false;
        }
        i = i + 1;
    }
    assert(a@ =~= b@);
    true
}

/// Copies a string slice into an owned `String`.
pub fn to_owned_string(s: &str) -> (r: String)
    ensures
        r@ == s@,
{
    String::from_str(s)
}

} // verus!
