//! Small verified helpers over strings, shared by the other modules.

use vstd::prelude::*;
use vstd::string::*;

verus! {

/// The characters of `s` that do not occur in `strip`.
pub open spec fn stripped(s: Seq<char>, strip: Seq<char>) -> Seq<char> {
    s.filter(|c: char| !strip.contains(c))
}

/// True when `c` occurs in `s`.
pub fn str_contains_char(s: &str, c: char) -> (r: bool)
    ensures
        r == s@.contains(c),
{
    let n = s.unicode_len();
    let mut i: usize = 0;
    while i < n
        invariant
            n == s@.len(),
            i <= n,
            forall|k: int| 0 <= k < i ==> s@[k] != c,
        decreases n - i,
    {
        if s.get_char(i) == c {
            return true;
        }
        i += 1;
    }
    false
}

/// True when the two strings hold the same characters.
pub fn str_eq(a: &str, b: &str) -> (r: bool)
    ensures
        r == (a@ == b@),
{
    let n = a.unicode_len();
    if n != b.unicode_len() {
        return false;
    }
    let mut i: usize = 0;
    while i < n
        invariant
            n == a@.len(),
            n == b@.len(),
            i <= n,
            forall|k: int| 0 <= k < i ==> a@[k] == b@[k],
        decreases n - i,
    {
        if a.get_char(i) != b.get_char(i) {
            return false;
        }
        i += 1;
    }
    proof {
        assert(a@ =~= b@);
    }
    true
}

proof fn lemma_stripped_step(s: Seq<char>, strip: Seq<char>, i: int)
    requires
        0 <= i < s.len(),
    ensures
        stripped(s.take(i + 1), strip) == if !strip.contains(s[i]) {
            stripped(s.take(i), strip).push(s[i])
        } else {
            stripped(s.take(i), strip)
        },
{
    let pred = |c: char| !strip.contains(c);
    assert(s.take(i + 1) =~= s.take(i).push(s[i]));
    Seq::<char>::lemma_filter_push(s.take(i), s[i], pred);
}

/// Returns `original` with every character that occurs in `to_strip`
/// removed, in their original order.
pub fn strip_characters(original: &str, to_strip: &str) -> (r: String)
    ensures
        r@ == stripped(original@, to_strip@),
{
    let n = original.unicode_len();
    let mut out = String::new();
    let mut i: usize = 0;
    while i < n
        invariant
            n == original@.len(),
            i <= n,
            out@ == stripped(original@.take(i as int), to_strip@),
        decreases n - i,
    {
        let c = original.get_char(i);
        if !str_contains_char(to_strip, c) {
            let piece = original.substring_char(i, i + 1);
            proof {
                assert(piece@ =~= seq![original@[i as int]]);
            }
            out.append(piece);
        }
        proof {
            lemma_stripped_step(original@, to_strip@, i as int);
            assert(out@ =~= stripped(original@.take(i + 1), to_strip@));
        }
        i += 1;
    }
    proof {
        assert(original@.take(n as int) =~= original@);
    }
    out
}

/// A sequence whose first occurrence of `c` is at `i` has
/// `index_of_first(c) == Some(i)`.
pub proof fn lemma_index_of_first_is(s: Seq<char>, c: char, i: int)
    requires
        0 <= i < s.len(),
        s[i] == c,
        forall|k: int| 0 <= k < i ==> s[k] != c,
    ensures
        s.index_of_first(c) == Some(i),
{
    s.index_of_first_ensures(c);
    match s.index_of_first(c) {
        None => {
            assert(s.contains(c));
        },
        Some(j) => {
            if j < i {
                assert(s[j] != c);
            } else if j > i {
                assert(s[i] != c);
            }
        },
    }
}

/// A sequence without any occurrence of `c` has `index_of_first(c) == None`.
pub proof fn lemma_index_of_first_none(s: Seq<char>, c: char)
    requires
        forall|k: int| 0 <= k < s.len() ==> s[k] != c,
    ensures
        s.index_of_first(c) is None,
{
    s.index_of_first_ensures(c);
    match s.index_of_first(c) {
        None => {},
        Some(j) => {
            assert(s[j] != c);
        },
    }
}

/// Finds the position of the first occurrence of `c` in `s` at or after
/// position `from`.
pub fn find_char_from(s: &str, c: char, from: usize) -> (r: Option<usize>)
    requires
        from <= s@.len(),
    ensures
        match r {
            Some(i) => from <= i < s@.len() && s@[i as int] == c && forall|k: int|
                from <= k < i ==> s@[k] != c,
            None => forall|k: int| from <= k < s@.len() ==> s@[k] != c,
        },
{
    let n = s.unicode_len();
    let mut i: usize = from;
    while i < n
        invariant
            n == s@.len(),
            from <= i <= n,
            forall|k: int| from <= k < i ==> s@[k] != c,
        decreases n - i,
    {
        if s.get_char(i) == c {
            return Some(i);
        }
        i += 1;
    }
    None
}

} // verus!
