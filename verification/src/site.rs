//! The site descriptor value and the parsing of questionnaire answers.
//!
//! A site groups the recording sessions of one location and carries the
//! metadata shared by them.  When no descriptor file exists yet, the
//! application asks the user for the site's name, tags and description; the
//! tag answer is a single line of semicolon-separated tags, parsed here.

use vstd::prelude::*;
use vstd::string::*;

use crate::text::find_char_from;
use crate::text::lemma_index_of_first_is;
use crate::text::lemma_index_of_first_none;

verus! {

/// Per-site metadata, read from the site descriptor file (or collected
/// interactively once and then persisted by the application).
pub struct Site {
    /// Site name, used in titles and as the `location` metadata field.
    pub name: String,
    /// Site-specific subject tags, emitted after the configured base tags.
    pub subject_tags: Vec<String>,
    /// Site description, appended to the configured base description.
    pub description: String,
    /// Set once the descriptor is complete and the site may be archived.
    pub ready_to_upload: bool,
}

/// The whitespace characters recognised when trimming an answer.
pub open spec fn is_space(c: char) -> bool {
    c == ' ' || c == '\t' || c == '\n' || c == '\r'
}

/// `s` without its leading whitespace.
pub open spec fn trim_start_of(s: Seq<char>) -> Seq<char>
    decreases s.len(),
{
    if s.len() > 0 && is_space(s[0]) {
        trim_start_of(s.drop_first())
    } else {
        s
    }
}

/// `s` without its trailing whitespace.
pub open spec fn trim_end_of(s: Seq<char>) -> Seq<char>
    decreases s.len(),
{
    if s.len() > 0 && is_space(s.last()) {
        trim_end_of(s.drop_last())
    } else {
        s
    }
}

/// `s` without leading and trailing whitespace.
pub open spec fn trimmed(s: Seq<char>) -> Seq<char> {
    trim_end_of(trim_start_of(s))
}

/// The pieces of `s` between its semicolons, in order.  A string without a
/// semicolon is one piece, so the empty string yields one empty piece.
pub open spec fn split_semi(s: Seq<char>) -> Seq<Seq<char>>
    decreases s.len(),
{
    match s.index_of_first(';') {
        None => seq![s],
        Some(i) => if 0 <= i < s.len() {
            seq![s.subrange(0, i)] + split_semi(s.subrange(i + 1, s.len() as int))
        } else {
            seq![s]
        },
    }
}

/// Each piece of `ts`, trimmed.
pub open spec fn trim_map(ts: Seq<Seq<char>>) -> Seq<Seq<char>> {
    ts.map_values(|t: Seq<char>| trimmed(t))
}

/// The tags parsed from one questionnaire answer: the answer is trimmed,
/// split on semicolons, each piece is trimmed, and the pieces are kept in
/// reverse order of appearance (each parsed tag is put in front of the
/// earlier ones).
pub open spec fn tags_of_response(s: Seq<char>) -> Seq<Seq<char>> {
    trim_map(split_semi(trimmed(s))).reverse()
}

/// True when `c` is recognised as whitespace.
pub fn char_is_space(c: char) -> (r: bool)
    ensures
        r == is_space(c),
{
    c == ' ' || c == '\t' || c == '\n' || c == '\r'
}

proof fn lemma_trim_start_skip(s: Seq<char>, i: int)
    requires
        0 <= i <= s.len(),
        forall|k: int| 0 <= k < i ==> is_space(s[k]),
        i == s.len() || !is_space(s[i]),
    ensures
        trim_start_of(s) == s.skip(i),
    decreases i,
{
    if i == 0 {
        assert(s.skip(0) =~= s);
    } else {
        let t = s.drop_first();
        assert(forall|k: int| 0 <= k < i - 1 ==> is_space(t[k]));
        lemma_trim_start_skip(t, i - 1);
        assert(t.skip(i - 1) =~= s.skip(i));
    }
}

proof fn lemma_trim_end_take(s: Seq<char>, j: int)
    requires
        0 <= j <= s.len(),
        forall|k: int| j <= k < s.len() ==> is_space(s[k]),
        j == 0 || !is_space(s[j - 1]),
    ensures
        trim_end_of(s) == s.take(j),
    decreases s.len(),
{
    if j == s.len() {
        assert(s.take(j) =~= s);
    } else {
        let t = s.drop_last();
        assert(forall|k: int| j <= k < t.len() ==> is_space(t[k]));
        lemma_trim_end_take(t, j);
        assert(t.take(j) =~= s.take(j));
    }
}

/// Returns `s` without leading and trailing whitespace.
pub fn trim(s: &str) -> (r: String)
    ensures
        r@ == trimmed(s@),
{
    let n = s.unicode_len();
    let mut a: usize = 0;
    while a < n
        invariant
            n == s@.len(),
            a <= n,
            forall|k: int| 0 <= k < a ==> is_space(s@[k]),
        ensures
            a <= n,
            forall|k: int| 0 <= k < a ==> is_space(s@[k]),
            a == n || !is_space(s@[a as int]),
        decreases n - a,
    {
        if !char_is_space(s.get_char(a)) {
            break ;
        }
        a += 1;
    }
    proof {
        lemma_trim_start_skip(s@, a as int);
    }
    let tail = s.substring_char(a, n);
    let m = tail.unicode_len();
    let mut j: usize = m;
    while j > 0
        invariant
            m == tail@.len(),
            j <= m,
            forall|k: int| j <= k < m ==> is_space(tail@[k]),
        ensures
            j <= m,
            forall|k: int| j <= k < m ==> is_space(tail@[k]),
            j == 0 || !is_space(tail@[j - 1]),
        decreases j,
    {
        if !char_is_space(tail.get_char(j - 1)) {
            break ;
        }
        j -= 1;
    }
    proof {
        lemma_trim_end_take(tail@, j as int);
    }
    let out = tail.substring_char(0, j);
    proof {
        assert(out@ =~= trimmed(s@));
    }
    out.to_owned()
}

/// Parses one questionnaire answer into the site's tag list: the pieces
/// between semicolons, each trimmed, each newly parsed tag inserted in
/// front of the earlier ones.
pub fn parse_tag_response(response: &str) -> (r: Vec<String>)
    ensures
        r.deep_view() == tags_of_response(response@),
{
    let whole = trim(response);
    let w = whole.as_str();
    let n = w.unicode_len();
    let mut tags: Vec<String> = Vec::new();
    let mut p: usize = 0;
    let ghost mut done: Seq<Seq<char>> = Seq::empty();
    proof {
        assert(w@.skip(0) =~= w@);
        assert(done + split_semi(w@) =~= split_semi(w@));
        assert(tags.deep_view() =~= trim_map(done).reverse());
    }
    loop
        invariant
            w@ == trimmed(response@),
            n == w@.len(),
            p <= n,
            split_semi(w@) == done + split_semi(w@.skip(p as int)),
            tags.deep_view() == trim_map(done).reverse(),
        decreases n - p,
    {
        let ghost rest = w@.skip(p as int);
        match find_char_from(w, ';', p) {
            Some(j) => {
                proof {
                    assert(rest[j - p] == ';');
                    assert(forall|k: int| 0 <= k < j - p ==> rest[k] != ';');
                    lemma_index_of_first_is(rest, ';', j - p);
                }
                let seg = w.substring_char(p, j);
                let t = trim(seg);
                let ghost prev = tags.deep_view();
                let ghost done1 = done;
                tags.insert(0, t);
                proof {
                    done = done1 + seq![seg@];
                    assert(rest.subrange(0, j - p) =~= seg@);
                    assert(rest.subrange(j - p + 1, rest.len() as int) =~= w@.skip(j + 1));
                    assert(split_semi(rest) == seq![seg@] + split_semi(w@.skip(j + 1)));
                    assert(done1 + (seq![seg@] + split_semi(w@.skip(j + 1))) =~= done + split_semi(
                        w@.skip(j + 1),
                    ));
                    assert(tags.deep_view() =~~= seq![trimmed(seg@)] + prev);
                    assert(trim_map(done).reverse() =~~= seq![trimmed(seg@)] + trim_map(
                        done1,
                    ).reverse());
                    assert(tags.deep_view() =~~= trim_map(done).reverse());
                }
                p = j + 1;
            },
            None => {
                proof {
                    assert(forall|k: int| 0 <= k < rest.len() ==> rest[k] != ';');
                    lemma_index_of_first_none(rest, ';');
                    assert(split_semi(rest) =~= seq![rest]);
                }
                let seg = w.substring_char(p, n);
                let t = trim(seg);
                let ghost prev = tags.deep_view();
                let ghost done1 = done;
                tags.insert(0, t);
                proof {
                    done = done1 + seq![seg@];
                    assert(seg@ =~= rest);
                    assert(split_semi(w@) =~= done);
                    assert(tags.deep_view() =~~= seq![trimmed(seg@)] + prev);
                    assert(trim_map(done).reverse() =~~= seq![trimmed(seg@)] + trim_map(
                        done1,
                    ).reverse());
                    assert(tags.deep_view() =~~= trim_map(done).reverse());
                    assert(tags.deep_view() == tags_of_response(response@));
                }
                return tags;
            },
        }
    }
}

} // verus!
