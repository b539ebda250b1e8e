//! Character-level vocabulary of type names: the generic-argument marker `<`,
//! the path separator `::`, and the operations on names that are phrased
//! with them.

use vstd::prelude::*;
use vstd::string::StringExecFns;

verus! {

broadcast use vstd::string::group_string_axioms;

/// The character that opens a generic-argument list.
pub open spec fn marker() -> char {
    '<'
}

/// The two characters that join the segments of a qualified path.
pub open spec fn separator() -> Seq<char> {
    seq![':', ':']
}

/// Whether `s` holds a generic-argument marker anywhere.
pub open spec fn has_marker(s: Seq<char>) -> bool {
    s.contains(marker())
}

/// Whether a path separator starts at position `i` of `s`.
pub open spec fn separator_at(s: Seq<char>, i: int) -> bool {
    0 <= i && i + 1 < s.len() && s[i] == ':' && s[i + 1] == ':'
}

/// Whether `s` holds a path separator anywhere.
pub open spec fn has_separator(s: Seq<char>) -> bool {
    exists|i: int| separator_at(s, i)
}

/// The position at which the last path separator of `s` starts, if there is one.
pub open spec fn last_separator(s: Seq<char>) -> Option<int>
    decreases s.len(),
{
    if s.len() < 2 {
        None
    } else if s[s.len() - 2] == ':' && s[s.len() - 1] == ':' {
        Some(s.len() - 2)
    } else {
        last_separator(s.drop_last())
    }
}

/// What follows the last path separator of `s`; all of `s` where it has none.
pub open spec fn unqualified(s: Seq<char>) -> Seq<char> {
    match last_separator(s) {
        Some(i) => s.skip(i + 2),
        None => s,
    }
}

/// `name` placed under `prefix`: the prefix, a path separator, the name.
pub open spec fn qualified(prefix: Seq<char>, name: Seq<char>) -> Seq<char> {
    prefix + separator() + name
}

/// The segments of a path written out with a separator between neighbours.
pub open spec fn joined(segments: Seq<Seq<char>>) -> Seq<char>
    decreases segments.len(),
{
    if segments.len() == 0 {
        Seq::empty()
    } else if segments.len() == 1 {
        segments[0]
    } else {
        joined(segments.drop_last()) + separator() + segments.last()
    }
}

/// The character sequences that a run of strings stands for.
pub open spec fn texts(strings: Seq<String>) -> Seq<Seq<char>> {
    strings.map_values(|s: String| s@)
}

/// `last_separator` finds a separator exactly when there is one, and the one
/// it finds is the rightmost.
pub proof fn lemma_last_separator(s: Seq<char>)
    ensures
        last_separator(s) is Some <==> has_separator(s),
        last_separator(s) matches Some(i) ==> separator_at(s, i) && forall|j: int|
            separator_at(s, j) ==> j <= i,
    decreases s.len(),
{
    if s.len() < 2 {
        assert forall|j: int| !separator_at(s, j) by {}
    } else if s[s.len() - 2] == ':' && s[s.len() - 1] == ':' {
        assert(separator_at(s, s.len() - 2));
    } else {
        let t = s.drop_last();
        lemma_last_separator(t);
        assert forall|j: int| separator_at(s, j) <==> separator_at(t, j) by {}
        if has_separator(s) {
            let j = choose|j: int| separator_at(s, j);
            assert(separator_at(t, j));
        }
        if has_separator(t) {
            let j = choose|j: int| separator_at(t, j);
            assert(separator_at(s, j));
        }
    }
}

/// What follows the last separator of a qualified name is the name that was
/// qualified, whatever the prefix: the separator that `qualified` puts in is
/// the last one, where the name has none and does not start with a colon.
pub proof fn lemma_unqualified_qualified(prefix: Seq<char>, name: Seq<char>)
    requires
        !has_separator(name),
        name.len() > 0 ==> name[0] != ':',
    ensures
        unqualified(qualified(prefix, name)) == name,
        unqualified(name) == name,
{
    let full = qualified(prefix, name);
    let at = prefix.len() as int;
    lemma_last_separator(full);
    lemma_last_separator(name);
    assert(separator_at(full, at));
    assert forall|j: int| separator_at(full, j) implies j <= at by {
        if j > at + 1 {
            assert(separator_at(name, j - at - 2));
        }
    }
    assert(full.skip(at + 2) =~= name);
}

/// A qualified name holds a generic-argument marker exactly when the prefix
/// or the name does.
pub proof fn lemma_qualified_marker(prefix: Seq<char>, name: Seq<char>)
    ensures
        has_marker(qualified(prefix, name)) <==> has_marker(prefix) || has_marker(name),
{
    let full = qualified(prefix, name);
    if has_marker(prefix) {
        let i = choose|i: int| 0 <= i < prefix.len() && prefix[i] == marker();
        assert(full[i] == marker());
    }
    if has_marker(name) {
        let i = choose|i: int| 0 <= i < name.len() && name[i] == marker();
        assert(full[prefix.len() + 2 + i] == marker());
    }
    if has_marker(full) {
        let i = choose|i: int| 0 <= i < full.len() && full[i] == marker();
        if i < prefix.len() {
            assert(prefix[i] == marker());
        } else if i < prefix.len() + 2 {
            assert(full[i] == separator()[i - prefix.len()]);
        } else {
            assert(name[i - prefix.len() - 2] == marker());
        }
    }
}

/// A character other than `:` that none of the segments holds is not in
/// their joined form either.
pub proof fn lemma_joined_lacks(segments: Seq<Seq<char>>, c: char)
    requires
        c != ':',
        forall|i: int| 0 <= i < segments.len() ==> !segments[i].contains(c),
    ensures
        !joined(segments).contains(c),
    decreases segments.len(),
{
    if segments.len() == 0 {
    } else if segments.len() == 1 {
    } else {
        let head = segments.drop_last();
        lemma_joined_lacks(head, c);
        let whole = joined(segments);
        assert forall|k: int| 0 <= k < whole.len() implies whole[k] != c by {
            let h = joined(head);
            if k < h.len() {
                assert(whole[k] == h[k]);
            } else if k < h.len() + 2 {
                assert(whole[k] == separator()[k - h.len()]);
            } else {
                assert(whole[k] == segments.last()[k - h.len() - 2]);
            }
        }
    }
}

/// Whether `needle` occurs anywhere in `s`.
pub fn contains_char(s: &str, needle: char) -> (found: bool)
    ensures
        found == s@.contains(needle),
{
    let mut found = false;
    for c in it: s.chars()
        invariant
            it.seq() == s@,
            found == exists|j: int| 0 <= j < it.index() && s@[j] == needle,
    {
        if c == needle {
            found = true;
        }
    }
    found
}

/// Whether `s` holds a generic-argument marker.
pub fn contains_marker(s: &str) -> (found: bool)
    ensures
        found == has_marker(s@),
{
    contains_char(s, '<')
}

/// The position, counted in characters, at which the last path separator of
/// `s` starts.
pub fn find_last_separator(s: &str) -> (found: Option<usize>)
    ensures
        found is Some == last_separator(s@) is Some,
        found matches Some(i) ==> last_separator(s@) == Some(i as int),
{
    let n: usize = s.unicode_len();
    let mut found: Option<usize> = None;
    let mut after_colon = false;
    let mut i: usize = 0;
    for c in it: s.chars()
        invariant
            it.seq() == s@,
            n == s@.len(),
            i == it.index(),
            after_colon == (i > 0 && s@[i - 1] == ':'),
            found is Some == last_separator(s@.take(i as int)) is Some,
            found matches Some(k) ==> last_separator(s@.take(i as int)) == Some(k as int),
    {
        assert(s@.take(i + 1).drop_last() == s@.take(i as int));
        if after_colon && c == ':' {
            found = Some(i - 1);
        }
        after_colon = c == ':';
        i += 1;
    }
    assert(s@.take(i as int) == s@);
    found
}

/// Whether `s` holds a path separator.
pub fn contains_separator(s: &str) -> (found: bool)
    ensures
        found == has_separator(s@),
{
    proof {
        lemma_last_separator(s@);
    }
    find_last_separator(s).is_some()
}

/// The part of `s` that follows its last path separator.
pub fn strip_qualifier(s: &str) -> (tail: &str)
    ensures
        tail@ == unqualified(s@),
{
    match find_last_separator(s) {
        Some(i) => {
            proof {
                lemma_last_separator(s@);
            }
            let n: usize = s.unicode_len();
            s.substring_char(i + 2, n)
        },
        None => s,
    }
}

/// `name` placed under `prefix`.
pub fn qualify(prefix: &str, name: &str) -> (full: String)
    ensures
        full@ == qualified(prefix@, name@),
{
    let mut full = String::from_str(prefix);
    full.append("::");
    full.append(name);
    proof {
        reveal_strlit("::");
        assert("::"@ =~= separator());
    }
    full
}

/// The segments written out as one path.
pub fn join(segments: &Vec<String>) -> (path: String)
    ensures
        path@ == joined(texts(segments@)),
{
    let mut path = String::new();
    let mut i: usize = 0;
    while i < segments.len()
        invariant
            i <= segments.len(),
            path@ == joined(texts(segments@).take(i as int)),
        decreases segments.len() - i,
    {
        proof {
            reveal_strlit("::");
            assert("::"@ =~= separator());
            let upto = texts(segments@).take(i + 1);
            assert(upto.drop_last() == texts(segments@).take(i as int));
            assert(upto.last() == segments@[i as int]@);
            if i == 0 {
                assert(joined(upto.drop_last()) == Seq::<char>::empty());
                assert(Seq::<char>::empty() + upto[0] == upto[0]);
            }
        }
        if i > 0 {
            path.append("::");
        }
        path.append(segments[i].as_str());
        i += 1;
    }
    assert(texts(segments@).take(i as int) == texts(segments@));
    path
}

} // verus!
