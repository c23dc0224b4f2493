//! The per-session manifest: the durable record of which files of a
//! session have already been uploaded, together with its text form.
//!
//! A manifest is stored as a small text file of three lines:
//!
//! ```text
//! identifier = "SWX20190116"
//! update = true
//! files = ["a.wav", "b.wav"]
//! ```
//!
//! The serializer below emits exactly this form and the parser accepts it;
//! whatever the parser accepts it reconstructs character for character, so
//! a loaded manifest always carries the text it was stored with.  The
//! application only reads and writes the enclosing file.

use vstd::prelude::*;
use vstd::string::*;

use crate::text::str_eq;

verus! {

/// A character that may appear in a stored identifier or file name: the
/// quote, the backslash and line breaks are excluded so that quoting a name
/// in the manifest file never needs escaping.
pub open spec fn plain_char(c: char) -> bool {
    c != '"' && c != '\\' && c != '\n' && c != '\r'
}

/// True when every character of `s` may appear in a stored name.
pub open spec fn text_ok(s: Seq<char>) -> bool {
    forall|i: int| 0 <= i < s.len() ==> plain_char(#[trigger] s[i])
}

/// A file name quoted for the manifest file.
pub open spec fn quoted(f: Seq<char>) -> Seq<char> {
    "\""@ + f + "\""@
}

/// The file-name list as written between the brackets of the `files` line.
pub open spec fn files_text(files: Seq<Seq<char>>) -> Seq<char>
    decreases files.len(),
{
    if files.len() == 0 {
        Seq::<char>::empty()
    } else if files.len() == 1 {
        quoted(files[0])
    } else {
        files_text(files.drop_last()) + ", "@ + quoted(files.last())
    }
}

/// The text of the `update` flag.
pub open spec fn bool_text(b: bool) -> Seq<char> {
    if b {
        "true"@
    } else {
        "false"@
    }
}

/// The full stored text of a manifest.
pub open spec fn manifest_text(id: Seq<char>, update: bool, files: Seq<Seq<char>>) -> Seq<char> {
    "identifier = \""@ + id + "\"\nupdate = "@ + bool_text(update) + "\nfiles = ["@ + files_text(
        files,
    ) + "]\n"@
}

/// The durable record of one session's upload progress.
pub struct Manifest {
    /// Copy of the session identifier, kept for standalone validation.
    pub identifier: String,
    /// True while the session is still receiving uploads.  Nothing flips
    /// it back yet; whether a session is fully archived is exposed
    /// separately by [`crate::session::session_complete`].
    pub update: bool,
    /// The names of the files already confirmed uploaded, in upload order.
    pub files: Vec<String>,
}

impl Manifest {
    /// The recorded file names as mathematical sequences.
    pub open spec fn names(&self) -> Seq<Seq<char>> {
        self.files.deep_view()
    }

    /// A manifest whose identifier and file names can all be stored.
    pub open spec fn wf(&self) -> bool {
        &&& text_ok(self.identifier@)
        &&& forall|i: int| 0 <= i < self.names().len() ==> text_ok(#[trigger] self.names()[i])
    }

    /// A fresh manifest for a session that has no stored manifest yet:
    /// the given identifier, the update flag set, and no files.  Never
    /// touches storage.
    pub fn create_empty(identifier: String) -> (m: Manifest)
        ensures
            m.identifier@ == identifier@,
            m.update == true,
            m.names() == Seq::<Seq<char>>::empty(),
    {
        let m = Manifest { identifier, update: true, files: Vec::new() };
        proof {
            assert(m.names() =~= Seq::<Seq<char>>::empty());
        }
        m
    }

    /// True when `name` is already recorded, by exact match.  This is the
    /// sole idempotency gate: a recorded file is never uploaded again.
    pub fn contains_file(&self, name: &str) -> (r: bool)
        ensures
            r == self.names().contains(name@),
    {
        let mut i: usize = 0;
        let n = self.files.len();
        while i < n
            invariant
                n == self.files.len(),
                i <= n,
                forall|k: int| 0 <= k < i ==> self.names()[k] != name@,
            decreases n - i,
        {
            if str_eq(self.files[i].as_str(), name) {
                assert(self.names()[i as int] == name@);
                return true;
            }
            i += 1;
        }
        false
    }

    /// Records one more uploaded file by appending its name; the
    /// identifier, the flag and the earlier entries are unchanged.
    pub fn record_file(&mut self, name: String)
        ensures
            final(self).identifier@ == old(self).identifier@,
            final(self).update == old(self).update,
            final(self).names() == old(self).names().push(name@),
    {
        self.files.push(name);
        proof {
            assert(self.names() =~~= old(self).names().push(name@));
        }
    }

    /// True when the identifier and every recorded name can be stored.
    pub fn is_storable(&self) -> (r: bool)
        ensures
            r == self.wf(),
    {
        if !text_is_plain(self.identifier.as_str()) {
            return false;
        }
        let mut i: usize = 0;
        let n = self.files.len();
        while i < n
            invariant
                n == self.files.len(),
                i <= n,
                forall|k: int| 0 <= k < i ==> text_ok(#[trigger] self.names()[k]),
                text_ok(self.identifier@),
            decreases n - i,
        {
            if !text_is_plain(self.files[i].as_str()) {
                assert(!text_ok(self.names()[i as int]));
                return false;
            }
            i += 1;
        }
        true
    }

    /// Serializes the manifest to its stored text.
    pub fn to_text(&self) -> (r: String)
        ensures
            r@ == manifest_text(self.identifier@, self.update, self.names()),
    {
        let mut out = String::new();
        out.append("identifier = \"");
        out.append(self.identifier.as_str());
        out.append("\"\nupdate = ");
        if self.update {
            out.append("true");
        } else {
            out.append("false");
        }
        out.append("\nfiles = [");
        let ghost fv = self.names();
        let ghost base = out@;
        let mut i: usize = 0;
        while i < self.files.len()
            invariant
                fv == self.names(),
                i <= self.files.len(),
                out@ == base + files_text(fv.take(i as int)),
            decreases self.files.len() - i,
        {
            if i > 0 {
                out.append(", ");
            }
            out.append("\"");
            out.append(self.files[i].as_str());
            out.append("\"");
            proof {
                assert(fv[i as int] == self.files@[i as int]@);
                lemma_files_text_step(fv, i as int);
                assert(out@ =~= base + files_text(fv.take(i + 1)));
            }
            i += 1;
        }
        out.append("]\n");
        proof {
            assert(fv.take(self.files@.len() as int) =~= fv);
            assert(out@ =~= manifest_text(self.identifier@, self.update, self.names()));
        }
        out
    }
}

proof fn lemma_files_text_step(files: Seq<Seq<char>>, k: int)
    requires
        0 <= k < files.len(),
    ensures
        files_text(files.take(k + 1)) == if k == 0 {
            quoted(files[0])
        } else {
            files_text(files.take(k)) + ", "@ + quoted(files[k])
        },
{
    let t = files.take(k + 1);
    if k == 0 {
        assert(t.len() == 1);
        assert(t[0] == files[0]);
    } else {
        assert(t.drop_last() =~= files.take(k));
        assert(t.last() == files[k]);
    }
}

/// Matches the literal `lit` at position `pos` of `s`; on success the
/// returned position is just past the literal.
fn expect_lit(s: &str, pos: usize, lit: &str) -> (r: Option<usize>)
    requires
        pos <= s@.len(),
    ensures
        match r {
            Some(p2) => pos + lit@.len() == p2 && p2 <= s@.len() && s@.subrange(
                pos as int,
                p2 as int,
            ) == lit@,
            None => !(pos + lit@.len() <= s@.len() && s@.subrange(
                pos as int,
                pos + lit@.len(),
            ) == lit@),
        },
{
    let l = lit.unicode_len();
    let n = s.unicode_len();
    if n - pos < l {
        return None;
    }
    let mut k: usize = 0;
    while k < l
        invariant
            l == lit@.len(),
            n == s@.len(),
            pos + l <= n,
            k <= l,
            forall|m: int| 0 <= m < k ==> s@[pos + m] == lit@[m],
        decreases l - k,
    {
        if s.get_char(pos + k) != lit.get_char(k) {
            proof {
                assert(s@.subrange(pos as int, pos + lit@.len())[k as int] != lit@[k as int]);
            }
            return None;
        }
        k += 1;
    }
    proof {
        assert(s@.subrange(pos as int, (pos + l) as int) =~= lit@);
    }
    Some(pos + l)
}

/// Holds when a scan for a closing quote that starts at `pos` fails at
/// position `j`: everything before `j` could belong to a stored name, and
/// `j` is the end of the text or a character no stored name may hold.
pub open spec fn scan_fails_at(s: Seq<char>, pos: int, j: int) -> bool {
    &&& pos <= j <= s.len()
    &&& forall|k: int| pos <= k < j ==> (#[trigger] s[k]) != '"' && plain_char(s[k])
    &&& j == s.len() || (s[j] != '"' && !plain_char(s[j]))
}

/// Scans the characters of a quoted name from `pos` up to the closing
/// quote, refusing any character that may not appear in a stored name.
fn scan_string(s: &str, pos: usize) -> (r: Option<(String, usize)>)
    requires
        pos <= s@.len(),
    ensures
        match r {
            Some(pair) => {
                &&& pos <= pair.1 < s@.len()
                &&& s@[pair.1 as int] == '"'
                &&& pair.0@ == s@.subrange(pos as int, pair.1 as int)
                &&& text_ok(pair.0@)
            },
            None => exists|j: int| scan_fails_at(s@, pos as int, j),
        },
{
    let n = s.unicode_len();
    let mut out = String::new();
    let mut i: usize = pos;
    proof {
        assert(out@ =~= s@.subrange(pos as int, pos as int));
    }
    while i < n
        invariant
            n == s@.len(),
            pos <= i <= n,
            out@ == s@.subrange(pos as int, i as int),
            forall|k: int| pos <= k < i ==> (#[trigger] s@[k]) != '"' && plain_char(s@[k]),
        decreases n - i,
    {
        let c = s.get_char(i);
        if c == '"' {
            proof {
                assert forall|k: int| 0 <= k < out@.len() implies plain_char(
                    #[trigger] out@[k],
                ) by {
                    assert(out@[k] == s@[pos + k]);
                }
            }
            return Some((out, i));
        }
        if c == '\\' || c == '\n' || c == '\r' {
            proof {
                assert(scan_fails_at(s@, pos as int, i as int));
            }
            return None;
        }
        let piece = s.substring_char(i, i + 1);
        proof {
            assert(piece@ =~= seq![s@[i as int]]);
        }
        out.append(piece);
        proof {
            assert(out@ =~= s@.subrange(pos as int, i + 1));
        }
        i += 1;
    }
    proof {
        assert(scan_fails_at(s@, pos as int, n as int));
    }
    None
}

proof fn lemma_files_text_push(files: Seq<Seq<char>>, f: Seq<char>)
    ensures
        files_text(files.push(f)) == if files.len() == 0 {
            quoted(f)
        } else {
            files_text(files) + ", "@ + quoted(f)
        },
{
    let t = files.push(f);
    if files.len() == 0 {
        assert(t.len() == 1);
        assert(t[0] == f);
    } else {
        assert(t.drop_last() =~= files);
        assert(t.last() == f);
    }
}

/// Holds when `s` is exactly the stored text of the manifest with
/// identifier `id`, flag `u` and file list `fs`, all names storable.
pub open spec fn is_manifest_text_of(
    s: Seq<char>,
    id: Seq<char>,
    u: bool,
    fs: Seq<Seq<char>>,
) -> bool {
    &&& text_ok(id)
    &&& forall|i: int| 0 <= i < fs.len() ==> text_ok(#[trigger] fs[i])
    &&& s == manifest_text(id, u, fs)
}

/// Holds when no storable manifest at all has `s` as its stored text.
pub open spec fn no_manifest_has_text(s: Seq<char>) -> bool {
    forall|id: Seq<char>, u: bool, fs: Seq<Seq<char>>| !is_manifest_text_of(s, id, u, fs)
}

proof fn lemma_literal_facts()
    ensures
        "identifier = \""@.len() == 14,
        "\"\nupdate = "@.len() == 11,
        "\nfiles = ["@.len() == 10,
        "]\n"@.len() == 2,
        "true"@.len() == 4,
        "false"@.len() == 5,
        ", "@.len() == 2,
        "\""@.len() == 1,
        "\"\nupdate = "@[0] == '"',
        "true"@[0] == 't',
        "false"@[0] == 'f',
        ", "@[0] == ',',
        ", "@[1] == ' ',
        "]\n"@[0] == ']',
        "]\n"@[1] == '\n',
        "\""@[0] == '"',
{
    reveal_strlit("identifier = \"");
    reveal_strlit("\"\nupdate = ");
    reveal_strlit("\nfiles = [");
    reveal_strlit("]\n");
    reveal_strlit("true");
    reveal_strlit("false");
    reveal_strlit(", ");
    reveal_strlit("\"");
}

/// The text of the file list from its `j`-th name on: each of those names
/// quoted, each preceded by the separator.
spec fn rest_list_text(fs: Seq<Seq<char>>, j: int) -> Seq<char>
    decreases fs.len() - j,
{
    if j < 0 || j >= fs.len() {
        Seq::<char>::empty()
    } else {
        ", "@ + quoted(fs[j]) + rest_list_text(fs, j + 1)
    }
}

proof fn lemma_list_decompose(fs: Seq<Seq<char>>, j: int)
    requires
        1 <= j <= fs.len(),
    ensures
        files_text(fs) == files_text(fs.take(j)) + rest_list_text(fs, j),
    decreases fs.len() - j,
{
    if j == fs.len() {
        assert(fs.take(j) =~= fs);
        assert(files_text(fs.take(j)) + rest_list_text(fs, j) =~= files_text(fs));
    } else {
        lemma_list_decompose(fs, j + 1);
        lemma_files_text_step(fs, j);
        assert(files_text(fs.take(j)) + rest_list_text(fs, j) =~= files_text(fs.take(j + 1))
            + rest_list_text(fs, j + 1));
    }
}

proof fn lemma_header_positions(s: Seq<char>, id: Seq<char>, u: bool, fs: Seq<Seq<char>>)
    requires
        is_manifest_text_of(s, id, u, fs),
    ensures
        s.len() == 37 + id.len() + bool_text(u).len() + files_text(fs).len(),
        s.subrange(0, 14) == "identifier = \""@,
        s.subrange(14, 14 + id.len() as int) == id,
        s.subrange(14 + id.len() as int, 25 + id.len() as int) == "\"\nupdate = "@,
        s[14 + id.len() as int] == '"',
        s.subrange(25 + id.len() as int, 25 + id.len() + bool_text(u).len() as int) == bool_text(u),
        s[25 + id.len() as int] == (if u {
            't'
        } else {
            'f'
        }),
        s.subrange(
            25 + id.len() + bool_text(u).len() as int,
            35 + id.len() + bool_text(u).len() as int,
        ) == "\nfiles = ["@,
        s.subrange(35 + id.len() + bool_text(u).len() as int, s.len() - 2) == files_text(fs),
        s.subrange(s.len() - 2, s.len() as int) == "]\n"@,
{
    lemma_literal_facts();
    assert(s.subrange(0, 14) =~= "identifier = \""@);
    assert(s.subrange(14, 14 + id.len() as int) =~= id);
    assert(s.subrange(14 + id.len() as int, 25 + id.len() as int) =~= "\"\nupdate = "@);
    assert(s[14 + id.len() as int] == "\"\nupdate = "@[0]);
    assert(s.subrange(25 + id.len() as int, 25 + id.len() + bool_text(u).len() as int) =~= bool_text(u));
    assert(s.subrange(
        25 + id.len() + bool_text(u).len() as int,
        35 + id.len() + bool_text(u).len() as int,
    ) =~= "\nfiles = ["@);
    assert(s.subrange(35 + id.len() + bool_text(u).len() as int, s.len() - 2) =~= files_text(fs));
    assert(s.subrange(s.len() - 2, s.len() as int) =~= "]\n"@);
}

proof fn lemma_scan_cannot_fail(s: Seq<char>, start: int, x: Seq<char>)
    requires
        0 <= start,
        start + x.len() < s.len(),
        forall|k: int| 0 <= k < x.len() ==> s[start + k] == #[trigger] x[k],
        text_ok(x),
        s[start + x.len()] == '"',
    ensures
        forall|j: int| !scan_fails_at(s, start, j),
{
    let q: int = start + x.len();
    assert forall|j: int| !scan_fails_at(s, start, j) by {
        if scan_fails_at(s, start, j) {
            if j < q {
                assert(s[start + (j - start)] == x[j - start]);
                assert(plain_char(x[j - start]));
                assert(s[j] != '"' && !plain_char(s[j]));
            } else if j == q {
                assert(s[j] == '"');
            } else {
                assert(s[q] != '"');
            }
        }
    }
}

proof fn lemma_scan_aligns(s: Seq<char>, start: int, x: Seq<char>, e: int)
    requires
        0 <= start,
        start + x.len() < s.len(),
        forall|k: int| 0 <= k < x.len() ==> s[start + k] == #[trigger] x[k],
        text_ok(x),
        s[start + x.len()] == '"',
        start <= e < s.len(),
        s[e] == '"',
        forall|k: int| start <= k < e ==> plain_char(#[trigger] s[k]),
    ensures
        e == start + x.len(),
        s.subrange(start, e) == x,
{
    let q: int = start + x.len();
    if e < q {
        assert(s[start + (e - start)] == x[e - start]);
        assert(plain_char(x[e - start]));
        assert(false);
    }
    if e > q {
        assert(plain_char(s[q]));
        assert(false);
    }
    assert(s.subrange(start, e) =~= x);
}

proof fn lemma_id_aligns(
    s: Seq<char>,
    idv: Seq<char>,
    e1: int,
    id0: Seq<char>,
    u0: bool,
    fs0: Seq<Seq<char>>,
)
    requires
        is_manifest_text_of(s, id0, u0, fs0),
        14 <= e1 < s.len(),
        s[e1] == '"',
        idv == s.subrange(14, e1),
        text_ok(idv),
    ensures
        e1 == 14 + id0.len() as int,
        id0 == idv,
{
    lemma_header_positions(s, id0, u0, fs0);
    assert forall|k: int| 0 <= k < id0.len() implies s[14 + k] == #[trigger] id0[k] by {
        assert(id0[k] == s.subrange(14, 14 + id0.len() as int)[k]);
    }
    assert forall|k: int| 14 <= k < e1 implies plain_char(#[trigger] s[k]) by {
        assert(s[k] == idv[k - 14]);
    }
    lemma_scan_aligns(s, 14, id0, e1);
    assert(id0 =~= idv);
}

/// What the parser has established once the three header lines are
/// consumed: the text opens with the identifier line holding exactly
/// `idv`, then the update line holding `upd`, then the opening bracket of
/// the files line.
spec fn header_matches(s: Seq<char>, idv: Seq<char>, upd: bool) -> bool {
    &&& text_ok(idv)
    &&& 35 + idv.len() + bool_text(upd).len() <= s.len()
    &&& s.subrange(0, 14) == "identifier = \""@
    &&& s.subrange(14, 14 + idv.len() as int) == idv
    &&& s.subrange(14 + idv.len() as int, 25 + idv.len() as int) == "\"\nupdate = "@
    &&& s.subrange(25 + idv.len() as int, 25 + idv.len() + bool_text(upd).len() as int) == bool_text(upd)
    &&& s.subrange(
        25 + idv.len() + bool_text(upd).len() as int,
        35 + idv.len() + bool_text(upd).len() as int,
    ) == "\nfiles = ["@
}

proof fn lemma_align(
    s: Seq<char>,
    idv: Seq<char>,
    upd: bool,
    id0: Seq<char>,
    u0: bool,
    fs0: Seq<Seq<char>>,
)
    requires
        header_matches(s, idv, upd),
        is_manifest_text_of(s, id0, u0, fs0),
    ensures
        id0 == idv,
        u0 == upd,
        s.len() == 37 + idv.len() + bool_text(upd).len() + files_text(fs0).len(),
        s.subrange(35 + idv.len() + bool_text(upd).len() as int, s.len() - 2) == files_text(fs0),
        s.subrange(s.len() - 2, s.len() as int) == "]\n"@,
{
    lemma_literal_facts();
    lemma_header_positions(s, id0, u0, fs0);
    if id0.len() < idv.len() {
        assert(s[14 + id0.len() as int] == '"');
        assert(s[14 + id0.len() as int] == s.subrange(14, 14 + idv.len() as int)[id0.len() as int]);
        assert(plain_char(idv[id0.len() as int]));
        assert(false);
    }
    if idv.len() < id0.len() {
        assert(s[14 + idv.len() as int] == s.subrange(14 + idv.len() as int, 25 + idv.len() as int)[0]);
        assert(s[14 + idv.len() as int] == '"');
        assert(s[14 + idv.len() as int] == s.subrange(14, 14 + id0.len() as int)[idv.len() as int]);
        assert(plain_char(id0[idv.len() as int]));
        assert(false);
    }
    assert(id0 =~= idv);
    if u0 != upd {
        assert(s[25 + id0.len() as int] == (if u0 {
            't'
        } else {
            'f'
        }));
        assert(s[25 + idv.len() as int] == s.subrange(
            25 + idv.len() as int,
            25 + idv.len() + bool_text(upd).len() as int,
        )[0]);
        assert(s[25 + idv.len() as int] == (if upd {
            't'
        } else {
            'f'
        }));
        assert(false);
    }
}

proof fn lemma_list_entry(
    s: Seq<char>,
    idv: Seq<char>,
    upd: bool,
    id0: Seq<char>,
    u0: bool,
    fs0: Seq<Seq<char>>,
)
    requires
        header_matches(s, idv, upd),
        is_manifest_text_of(s, id0, u0, fs0),
    ensures
        37 + idv.len() + bool_text(upd).len() <= s.len(),
        fs0.len() == 0 ==> s[35 + idv.len() + bool_text(upd).len() as int] == ']',
        fs0.len() > 0 ==> s[35 + idv.len() + bool_text(upd).len() as int] == '"',
{
    lemma_literal_facts();
    lemma_align(s, idv, upd, id0, u0, fs0);
    let lrs: int = 35 + idv.len() + bool_text(upd).len() as int;
    if fs0.len() == 0 {
        assert(files_text(fs0).len() == 0);
        assert(s[lrs] == s.subrange(s.len() - 2, s.len() as int)[0]);
    } else {
        lemma_list_decompose(fs0, 1);
        assert(files_text(fs0.take(1)) == quoted(fs0.take(1)[0]));
        assert(fs0.take(1)[0] == fs0[0]);
        assert(files_text(fs0)[0] == quoted(fs0[0])[0]);
        assert(quoted(fs0[0])[0] == '"');
        assert(s[lrs] == s.subrange(lrs, s.len() - 2)[0]);
    }
}

proof fn lemma_region_at(
    s: Seq<char>,
    idv: Seq<char>,
    upd: bool,
    fv: Seq<Seq<char>>,
    cur: int,
    id0: Seq<char>,
    u0: bool,
    fs0: Seq<Seq<char>>,
)
    requires
        header_matches(s, idv, upd),
        is_manifest_text_of(s, id0, u0, fs0),
        fv.len() < fs0.len(),
        fv == fs0.take(fv.len() as int),
        35 + idv.len() + bool_text(upd).len() <= cur <= s.len(),
        s.subrange(35 + idv.len() + bool_text(upd).len() as int, cur) == files_text(fv) + (
        if fv.len() == 0 {
            Seq::<char>::empty()
        } else {
            ", "@
        }),
    ensures
        cur + 2 + fs0[fv.len() as int].len() + 2 <= s.len(),
        s[cur] == '"',
        forall|t: int|
            0 <= t < fs0[fv.len() as int].len() ==> s[cur + 1 + t] == #[trigger] (fs0[
            fv.len() as int])[t],
        s[cur + 1 + fs0[fv.len() as int].len()] == '"',
        fv.len() + 1 < fs0.len() ==> s.subrange(
            cur + 2 + fs0[fv.len() as int].len(),
            cur + 4 + fs0[fv.len() as int].len(),
        ) == ", "@,
        fv.len() + 1 == fs0.len() ==> cur + 2 + fs0[fv.len() as int].len() == s.len() - 2,
{
    lemma_literal_facts();
    lemma_align(s, idv, upd, id0, u0, fs0);
    let lrs: int = 35 + idv.len() + bool_text(upd).len() as int;
    let k: int = fv.len() as int;
    let x = fs0[k];
    lemma_list_decompose(fs0, k + 1);
    lemma_files_text_step(fs0, k);
    let sep: Seq<char> = if k == 0 {
        Seq::<char>::empty()
    } else {
        ", "@
    };
    assert(files_text(fs0.take(k)) == files_text(fv));
    assert(files_text(fs0) =~= (files_text(fv) + sep) + (quoted(x) + rest_list_text(
        fs0,
        k + 1,
    )));
    assert(cur - lrs == files_text(fv).len() + sep.len());
    assert(s.subrange(cur, s.len() - 2) =~= quoted(x) + rest_list_text(fs0, k + 1));
    assert(s[cur] == (quoted(x) + rest_list_text(fs0, k + 1))[0]);
    assert(quoted(x)[0] == '"');
    assert forall|t: int| 0 <= t < x.len() implies s[cur + 1 + t] == #[trigger] x[t] by {
        assert(s[cur + 1 + t] == s.subrange(cur, s.len() - 2)[1 + t]);
        assert(quoted(x)[1 + t] == x[t]);
    }
    assert(s[cur + 1 + x.len()] == s.subrange(cur, s.len() - 2)[1 + x.len() as int]);
    assert(quoted(x)[1 + x.len() as int] == '"');
    if k + 1 < fs0.len() {
        assert(rest_list_text(fs0, k + 1) == ", "@ + quoted(fs0[k + 1]) + rest_list_text(
            fs0,
            k + 2,
        ));
        assert forall|t: int| 0 <= t < 2 implies s.subrange(
            cur + 2 + x.len(),
            cur + 4 + x.len(),
        )[t] == ", "@[t] by {
            assert(s.subrange(cur, s.len() - 2)[2 + x.len() + t] == rest_list_text(
                fs0,
                k + 1,
            )[t]);
            assert(rest_list_text(fs0, k + 1)[t] == ", "@[t]);
        }
        assert(s.subrange(cur + 2 + x.len(), cur + 4 + x.len()) =~= ", "@);
    } else {
        assert(rest_list_text(fs0, k + 1).len() == 0);
    }
}

proof fn lemma_rest_list_injective(fs1: Seq<Seq<char>>, fs2: Seq<Seq<char>>, j: int)
    requires
        forall|i: int| 0 <= i < fs1.len() ==> text_ok(#[trigger] fs1[i]),
        forall|i: int| 0 <= i < fs2.len() ==> text_ok(#[trigger] fs2[i]),
        0 <= j <= fs1.len(),
        j <= fs2.len(),
        rest_list_text(fs1, j) == rest_list_text(fs2, j),
    ensures
        fs1.len() == fs2.len(),
        forall|i: int| j <= i < fs1.len() ==> fs1[i] == #[trigger] fs2[i],
    decreases fs1.len() - j,
{
    lemma_literal_facts();
    let t = rest_list_text(fs1, j);
    if j == fs1.len() {
        if j < fs2.len() {
            assert(rest_list_text(fs2, j).len() >= 2 + quoted(fs2[j]).len());
            assert(false);
        }
    } else if j == fs2.len() {
        assert(rest_list_text(fs1, j).len() >= 2 + quoted(fs1[j]).len());
        assert(false);
    } else {
        let x1 = fs1[j];
        let x2 = fs2[j];
        assert(t == ", "@ + quoted(x1) + rest_list_text(fs1, j + 1));
        assert(t == ", "@ + quoted(x2) + rest_list_text(fs2, j + 1));
        assert(t[2] == '"');
        if x1.len() < x2.len() {
            assert(t[3 + x1.len() as int] == quoted(x1)[1 + x1.len() as int]);
            assert(t[3 + x1.len() as int] == quoted(x2)[1 + x1.len() as int]);
            assert(quoted(x2)[1 + x1.len() as int] == x2[x1.len() as int]);
            assert(plain_char(x2[x1.len() as int]));
            assert(false);
        }
        if x2.len() < x1.len() {
            assert(t[3 + x2.len() as int] == quoted(x2)[1 + x2.len() as int]);
            assert(t[3 + x2.len() as int] == quoted(x1)[1 + x2.len() as int]);
            assert(quoted(x1)[1 + x2.len() as int] == x1[x2.len() as int]);
            assert(plain_char(x1[x2.len() as int]));
            assert(false);
        }
        assert forall|k: int| 0 <= k < x1.len() implies x1[k] == x2[k] by {
            assert(t[3 + k] == quoted(x1)[1 + k]);
            assert(t[3 + k] == quoted(x2)[1 + k]);
        }
        assert(x1 =~= x2);
        assert(rest_list_text(fs1, j + 1) =~= rest_list_text(fs2, j + 1)) by {
            assert forall|k: int| 0 <= k < rest_list_text(fs1, j + 1).len() implies #[trigger]
                rest_list_text(fs1, j + 1)[k] == rest_list_text(fs2, j + 1)[k] by {
                assert(rest_list_text(fs1, j + 1)[k] == t[4 + x1.len() + k]);
                assert(rest_list_text(fs2, j + 1)[k] == t[4 + x2.len() + k]);
            }
        }
        lemma_rest_list_injective(fs1, fs2, j + 1);
    }
}

proof fn lemma_files_text_injective(fs1: Seq<Seq<char>>, fs2: Seq<Seq<char>>)
    requires
        forall|i: int| 0 <= i < fs1.len() ==> text_ok(#[trigger] fs1[i]),
        forall|i: int| 0 <= i < fs2.len() ==> text_ok(#[trigger] fs2[i]),
        files_text(fs1) == files_text(fs2),
    ensures
        fs1 == fs2,
{
    lemma_literal_facts();
    let t = files_text(fs1);
    if fs1.len() == 0 {
        if fs2.len() > 0 {
            lemma_list_decompose(fs2, 1);
            assert(files_text(fs2.take(1)) == quoted(fs2.take(1)[0]));
            assert(files_text(fs2).len() >= quoted(fs2[0]).len());
            assert(false);
        }
        assert(fs1 =~= fs2);
    } else if fs2.len() == 0 {
        lemma_list_decompose(fs1, 1);
        assert(files_text(fs1.take(1)) == quoted(fs1.take(1)[0]));
        assert(files_text(fs1).len() >= quoted(fs1[0]).len());
        assert(false);
    } else {
        lemma_list_decompose(fs1, 1);
        lemma_list_decompose(fs2, 1);
        assert(files_text(fs1.take(1)) == quoted(fs1.take(1)[0]));
        assert(files_text(fs2.take(1)) == quoted(fs2.take(1)[0]));
        let x1 = fs1[0];
        let x2 = fs2[0];
        assert(t == quoted(x1) + rest_list_text(fs1, 1));
        assert(t == quoted(x2) + rest_list_text(fs2, 1));
        if x1.len() < x2.len() {
            assert(t[1 + x1.len() as int] == quoted(x1)[1 + x1.len() as int]);
            assert(t[1 + x1.len() as int] == quoted(x2)[1 + x1.len() as int]);
            assert(quoted(x2)[1 + x1.len() as int] == x2[x1.len() as int]);
            assert(plain_char(x2[x1.len() as int]));
            assert(false);
        }
        if x2.len() < x1.len() {
            assert(t[1 + x2.len() as int] == quoted(x2)[1 + x2.len() as int]);
            assert(t[1 + x2.len() as int] == quoted(x1)[1 + x2.len() as int]);
            assert(quoted(x1)[1 + x2.len() as int] == x1[x2.len() as int]);
            assert(plain_char(x1[x2.len() as int]));
            assert(false);
        }
        assert forall|k: int| 0 <= k < x1.len() implies x1[k] == x2[k] by {
            assert(t[1 + k] == quoted(x1)[1 + k]);
            assert(t[1 + k] == quoted(x2)[1 + k]);
        }
        assert(x1 =~= x2);
        assert(rest_list_text(fs1, 1) =~= rest_list_text(fs2, 1)) by {
            assert forall|k: int| 0 <= k < rest_list_text(fs1, 1).len() implies #[trigger]
                rest_list_text(fs1, 1)[k] == rest_list_text(fs2, 1)[k] by {
                assert(rest_list_text(fs1, 1)[k] == t[2 + x1.len() + k]);
                assert(rest_list_text(fs2, 1)[k] == t[2 + x2.len() + k]);
            }
        }
        lemma_rest_list_injective(fs1, fs2, 1);
        assert(fs1 =~= fs2);
    }
}

/// The stored text determines the manifest: two storable manifests with
/// the same stored text have the same identifier, the same flag and the
/// same file list.  Together with the contracts of [`Manifest::to_text`]
/// and [`parse_manifest`] this makes the stored form a faithful encoding:
/// parsing the emitted text of a storable manifest recovers it exactly.
pub proof fn lemma_manifest_text_injective(
    s: Seq<char>,
    id1: Seq<char>,
    u1: bool,
    fs1: Seq<Seq<char>>,
    id2: Seq<char>,
    u2: bool,
    fs2: Seq<Seq<char>>,
)
    requires
        is_manifest_text_of(s, id1, u1, fs1),
        is_manifest_text_of(s, id2, u2, fs2),
    ensures
        id1 == id2,
        u1 == u2,
        fs1 == fs2,
{
    lemma_literal_facts();
    lemma_header_positions(s, id1, u1, fs1);
    lemma_header_positions(s, id2, u2, fs2);
    if id1.len() < id2.len() {
        assert(s[14 + id1.len() as int] == '"');
        assert(s[14 + id1.len() as int] == s.subrange(14, 14 + id2.len() as int)[id1.len() as int]);
        assert(plain_char(id2[id1.len() as int]));
        assert(false);
    }
    if id2.len() < id1.len() {
        assert(s[14 + id2.len() as int] == '"');
        assert(s[14 + id2.len() as int] == s.subrange(14, 14 + id1.len() as int)[id2.len() as int]);
        assert(plain_char(id1[id2.len() as int]));
        assert(false);
    }
    assert(id1 =~= id2);
    if u1 != u2 {
        assert(s[25 + id1.len() as int] == (if u1 {
            't'
        } else {
            'f'
        }));
        assert(s[25 + id2.len() as int] == (if u2 {
            't'
        } else {
            'f'
        }));
        assert(false);
    }
    assert(files_text(fs1) == files_text(fs2));
    lemma_files_text_injective(fs1, fs2);
}

/// Parses the stored text of a manifest.  Whatever it accepts is exactly
/// the stored text of the returned manifest: on success the input equals
/// `manifest_text` of the result, character for character, and the result
/// is storable again.  It fails exactly on the texts that no storable
/// manifest has.
#[verifier::rlimit(100)]
#[verifier::spinoff_prover]
pub fn parse_manifest(s: &str) -> (r: Option<Manifest>)
    ensures
        match r {
            Some(m) => m.wf() && s@ == manifest_text(m.identifier@, m.update, m.names()),
            None => no_manifest_has_text(s@),
        },
{
    let n = s.unicode_len();
    let p1 = match expect_lit(s, 0, "identifier = \"") {
        Some(p) => p,
        None => {
            proof {
                assert forall|id0: Seq<char>, u0: bool, fs0: Seq<Seq<char>>|
                    !is_manifest_text_of(s@, id0, u0, fs0) by {
                    if is_manifest_text_of(s@, id0, u0, fs0) {
                        lemma_literal_facts();
                        lemma_header_positions(s@, id0, u0, fs0);
                    }
                }
            }
            return None;
        },
    };
    let (id, e1) = match scan_string(s, p1) {
        Some(x) => x,
        None => {
            proof {
                assert forall|id0: Seq<char>, u0: bool, fs0: Seq<Seq<char>>|
                    !is_manifest_text_of(s@, id0, u0, fs0) by {
                    if is_manifest_text_of(s@, id0, u0, fs0) {
                        lemma_literal_facts();
                        lemma_header_positions(s@, id0, u0, fs0);
                        assert forall|k: int| 0 <= k < id0.len() implies s@[14 + k]
                            == #[trigger] id0[k] by {
                            assert(id0[k] == s@.subrange(14, 14 + id0.len() as int)[k]);
                        }
                        lemma_scan_cannot_fail(s@, 14, id0);
                        let j = choose|j: int| scan_fails_at(s@, p1 as int, j);
                        assert(scan_fails_at(s@, p1 as int, j));
                        assert(!scan_fails_at(s@, 14, j));
                    }
                }
            }
            return None;
        },
    };
    let p2 = match expect_lit(s, e1, "\"\nupdate = ") {
        Some(p) => p,
        None => {
            proof {
                assert forall|id0: Seq<char>, u0: bool, fs0: Seq<Seq<char>>|
                    !is_manifest_text_of(s@, id0, u0, fs0) by {
                    if is_manifest_text_of(s@, id0, u0, fs0) {
                        lemma_literal_facts();
                        lemma_id_aligns(s@, id@, e1 as int, id0, u0, fs0);
                        lemma_header_positions(s@, id0, u0, fs0);
                    }
                }
            }
            return None;
        },
    };
    let (update, p3) = match expect_lit(s, p2, "true") {
        Some(p) => (true, p),
        None => {
            match expect_lit(s, p2, "false") {
                Some(p) => (false, p),
                None => {
                    proof {
                        assert forall|id0: Seq<char>, u0: bool, fs0: Seq<Seq<char>>|
                            !is_manifest_text_of(s@, id0, u0, fs0) by {
                            if is_manifest_text_of(s@, id0, u0, fs0) {
                                lemma_literal_facts();
                                lemma_id_aligns(s@, id@, e1 as int, id0, u0, fs0);
                                lemma_header_positions(s@, id0, u0, fs0);
                                if u0 {
                                    assert(bool_text(u0) == "true"@);
                                } else {
                                    assert(bool_text(u0) == "false"@);
                                }
                            }
                        }
                    }
                    return None;
                },
            }
        },
    };
    proof {
        assert(s@.subrange(p2 as int, p3 as int) == bool_text(update));
        assert(p3 == p2 + bool_text(update).len());
    }
    let p4 = match expect_lit(s, p3, "\nfiles = [") {
        Some(p) => p,
        None => {
            proof {
                assert forall|id0: Seq<char>, u0: bool, fs0: Seq<Seq<char>>|
                    !is_manifest_text_of(s@, id0, u0, fs0) by {
                    if is_manifest_text_of(s@, id0, u0, fs0) {
                        lemma_literal_facts();
                        lemma_id_aligns(s@, id@, e1 as int, id0, u0, fs0);
                        lemma_header_positions(s@, id0, u0, fs0);
                        if u0 != update {
                            assert(s@[p2 as int] == s@.subrange(p2 as int, p3 as int)[0]);
                            assert(s@[25 + id0.len() as int] == (if u0 {
                                't'
                            } else {
                                'f'
                            }));
                            assert(false);
                        }
                    }
                }
            }
            return None;
        },
    };
    let ghost pre = s@.subrange(0, p4 as int);
    let mut files: Vec<String> = Vec::new();
    let mut cur: usize = p4;
    proof {
        lemma_literal_facts();
        assert(e1 as int == 14 + id@.len());
        assert(p4 as int == 35 + id@.len() + bool_text(update).len() as int);
        assert(s@.subrange(14, 14 + id@.len() as int) == id@);
        assert(header_matches(s@, id@, update));
        assert(files.deep_view() =~= Seq::<Seq<char>>::empty());
        assert(s@.subrange(0, cur as int) =~= pre + files_text(files.deep_view()));
        assert(s@.subrange(p4 as int, cur as int) =~= files_text(files.deep_view()));
    }
    if cur >= n {
        proof {
            assert forall|id0: Seq<char>, u0: bool, fs0: Seq<Seq<char>>|
                !is_manifest_text_of(s@, id0, u0, fs0) by {
                if is_manifest_text_of(s@, id0, u0, fs0) {
                    lemma_align(s@, id@, update, id0, u0, fs0);
                }
            }
        }
        return None;
    }
    if s.get_char(cur) != ']' {
        proof {
            assert forall|id0: Seq<char>, u0: bool, fs0: Seq<Seq<char>>| #[trigger]
                is_manifest_text_of(s@, id0, u0, fs0) implies (files.deep_view().len()
                < fs0.len() && files.deep_view() == fs0.take(
                files.deep_view().len() as int,
            )) by {
                lemma_list_entry(s@, id@, update, id0, u0, fs0);
                if fs0.len() == 0 {
                    assert(s@[p4 as int] == ']');
                    assert(false);
                }
                assert(files.deep_view() =~= fs0.take(files.deep_view().len() as int));
            }
        }
        loop
            invariant_except_break
                n == s@.len(),
                p4 <= cur <= n,
                pre == s@.subrange(0, p4 as int),
                header_matches(s@, id@, update),
                p4 as int == 35 + id@.len() + bool_text(update).len() as int,
                s@.subrange(0, cur as int) == pre + files_text(files.deep_view()) + (
                if files.deep_view().len() == 0 {
                    Seq::<char>::empty()
                } else {
                    ", "@
                }),
                s@.subrange(p4 as int, cur as int) == files_text(files.deep_view()) + (
                if files.deep_view().len() == 0 {
                    Seq::<char>::empty()
                } else {
                    ", "@
                }),
                forall|k: int|
                    0 <= k < files.deep_view().len() ==> text_ok(
                        #[trigger] files.deep_view()[k],
                    ),
                forall|id0: Seq<char>, u0: bool, fs0: Seq<Seq<char>>| #[trigger]
                    is_manifest_text_of(s@, id0, u0, fs0) ==> (files.deep_view().len()
                    < fs0.len() && files.deep_view() == fs0.take(
                    files.deep_view().len() as int,
                )),
            ensures
                n == s@.len(),
                p4 <= cur <= n,
                pre == s@.subrange(0, p4 as int),
                s@.subrange(0, cur as int) == pre + files_text(files.deep_view()),
                s@.subrange(p4 as int, cur as int) == files_text(files.deep_view()),
                forall|k: int|
                    0 <= k < files.deep_view().len() ==> text_ok(
                        #[trigger] files.deep_view()[k],
                    ),
                forall|id0: Seq<char>, u0: bool, fs0: Seq<Seq<char>>| #[trigger]
                    is_manifest_text_of(s@, id0, u0, fs0) ==> files.deep_view() == fs0,
            decreases n - cur,
        {
            if cur >= n {
                proof {
                    assert forall|id0: Seq<char>, u0: bool, fs0: Seq<Seq<char>>|
                        !is_manifest_text_of(s@, id0, u0, fs0) by {
                        if is_manifest_text_of(s@, id0, u0, fs0) {
                            lemma_region_at(
                                s@,
                                id@,
                                update,
                                files.deep_view(),
                                cur as int,
                                id0,
                                u0,
                                fs0,
                            );
                        }
                    }
                }
                return None;
            }
            if s.get_char(cur) != '"' {
                proof {
                    assert forall|id0: Seq<char>, u0: bool, fs0: Seq<Seq<char>>|
                        !is_manifest_text_of(s@, id0, u0, fs0) by {
                        if is_manifest_text_of(s@, id0, u0, fs0) {
                            lemma_region_at(
                                s@,
                                id@,
                                update,
                                files.deep_view(),
                                cur as int,
                                id0,
                                u0,
                                fs0,
                            );
                        }
                    }
                }
                return None;
            }
            let (t, e) = match scan_string(s, cur + 1) {
                Some(x) => x,
                None => {
                    proof {
                        assert forall|id0: Seq<char>, u0: bool, fs0: Seq<Seq<char>>|
                            !is_manifest_text_of(s@, id0, u0, fs0) by {
                            if is_manifest_text_of(s@, id0, u0, fs0) {
                                lemma_region_at(
                                    s@,
                                    id@,
                                    update,
                                    files.deep_view(),
                                    cur as int,
                                    id0,
                                    u0,
                                    fs0,
                                );
                                lemma_scan_cannot_fail(
                                    s@,
                                    cur + 1,
                                    fs0[files.deep_view().len() as int],
                                );
                            }
                        }
                    }
                    return None;
                },
            };
            let ghost fv0 = files.deep_view();
            let ghost cur0 = cur as int;
            let ghost cur1 = e + 1 as int;
            let ghost consumed0 = s@.subrange(0, cur as int);
            files.push(t);
            proof {
                reveal_strlit("\"");
                assert("\""@ =~= seq!['"']);
                assert(s@.subrange(cur as int, e + 1) =~= quoted(t@));
                assert(files.deep_view() =~~= fv0.push(t@));
                lemma_files_text_push(fv0, t@);
                assert(s@.subrange(0, e + 1) =~= consumed0 + s@.subrange(cur as int, e + 1));
                assert(s@.subrange(0, e + 1) =~= pre + files_text(files.deep_view()));
                assert(s@.subrange(p4 as int, e + 1) =~= files_text(files.deep_view()));
                assert forall|id0: Seq<char>, u0: bool, fs0: Seq<Seq<char>>| #[trigger]
                    is_manifest_text_of(s@, id0, u0, fs0) implies (files.deep_view()
                    == fs0.take(files.deep_view().len() as int) && files.deep_view().len()
                    <= fs0.len() && (files.deep_view().len() < fs0.len() ==> (cur1 + 2 <= n
                    && s@.subrange(cur1, cur1 + 2) == ", "@)) && (files.deep_view().len()
                    == fs0.len() ==> (cur1 == n - 2 && s@.subrange(cur1, cur1 + 2)
                    == "]\n"@))) by {
                    lemma_literal_facts();
                    lemma_region_at(s@, id@, update, fv0, cur0, id0, u0, fs0);
                    assert forall|k2: int| cur0 + 1 <= k2 < e implies plain_char(
                        #[trigger] s@[k2],
                    ) by {
                        assert(s@[k2] == t@[k2 - (cur0 + 1)]);
                    }
                    lemma_scan_aligns(s@, cur0 + 1, fs0[fv0.len() as int], e as int);
                    assert(t@ == fs0[fv0.len() as int]);
                    assert(files.deep_view() =~= fs0.take(fv0.len() as int + 1));
                    lemma_align(s@, id@, update, id0, u0, fs0);
                    if files.deep_view().len() == fs0.len() {
                        assert(cur1 == n - 2);
                        assert(s@.subrange(cur1, cur1 + 2) == "]\n"@);
                    }
                }
            }
            cur = e + 1;
            let more = cur < n && s.get_char(cur) == ',';
            if !more {
                proof {
                    assert forall|id0: Seq<char>, u0: bool, fs0: Seq<Seq<char>>| #[trigger]
                        is_manifest_text_of(s@, id0, u0, fs0) implies files.deep_view()
                        == fs0 by {
                        lemma_literal_facts();
                        if files.deep_view().len() < fs0.len() {
                            assert(s@[cur1] == s@.subrange(cur1, cur1 + 2)[0]);
                            assert(false);
                        }
                        assert(files.deep_view() =~= fs0.take(fs0.len() as int));
                        assert(files.deep_view() =~= fs0);
                    }
                }
                break ;
            }
            let ghost consumed1 = s@.subrange(0, cur as int);
            let pn = match expect_lit(s, cur, ", ") {
                Some(p) => p,
                None => {
                    proof {
                        assert forall|id0: Seq<char>, u0: bool, fs0: Seq<Seq<char>>|
                            !is_manifest_text_of(s@, id0, u0, fs0) by {
                            if is_manifest_text_of(s@, id0, u0, fs0) {
                                lemma_literal_facts();
                                if files.deep_view().len() == fs0.len() {
                                    assert(s@[cur1] == s@.subrange(cur1, cur1 + 2)[0]);
                                    assert(s@[cur1] == ']');
                                    assert(false);
                                }
                            }
                        }
                    }
                    return None;
                },
            };
            proof {
                assert(s@.subrange(0, pn as int) =~= consumed1 + s@.subrange(
                    cur as int,
                    pn as int,
                ));
                assert(s@.subrange(0, pn as int) =~= pre + files_text(files.deep_view())
                    + ", "@);
                assert(s@.subrange(p4 as int, pn as int) =~= files_text(files.deep_view())
                    + ", "@);
                assert forall|id0: Seq<char>, u0: bool, fs0: Seq<Seq<char>>| #[trigger]
                    is_manifest_text_of(s@, id0, u0, fs0) implies (files.deep_view().len()
                    < fs0.len() && files.deep_view() == fs0.take(
                    files.deep_view().len() as int,
                )) by {
                    lemma_literal_facts();
                    if files.deep_view().len() == fs0.len() {
                        assert(s@[cur1] == s@.subrange(cur1, cur1 + 2)[0]);
                        assert(s@[cur1] == ']');
                        assert(false);
                    }
                }
            }
            cur = pn;
        }
    } else {
        proof {
            assert forall|id0: Seq<char>, u0: bool, fs0: Seq<Seq<char>>| #[trigger]
                is_manifest_text_of(s@, id0, u0, fs0) implies files.deep_view() == fs0 by {
                lemma_list_entry(s@, id@, update, id0, u0, fs0);
                if fs0.len() > 0 {
                    assert(s@[p4 as int] == '"');
                    assert(false);
                }
                assert(files.deep_view() =~= fs0);
            }
        }
    }
    let ghost consumed2 = s@.subrange(0, cur as int);
    let p6 = match expect_lit(s, cur, "]\n") {
        Some(p) => p,
        None => {
            proof {
                assert forall|id0: Seq<char>, u0: bool, fs0: Seq<Seq<char>>|
                    !is_manifest_text_of(s@, id0, u0, fs0) by {
                    if is_manifest_text_of(s@, id0, u0, fs0) {
                        lemma_align(s@, id@, update, id0, u0, fs0);
                        assert(files.deep_view() == fs0);
                        assert(cur as int == p4 as int + files_text(fs0).len());
                        assert(cur as int == s@.len() - 2);
                    }
                }
            }
            return None;
        },
    };
    if p6 != n {
        proof {
            assert forall|id0: Seq<char>, u0: bool, fs0: Seq<Seq<char>>|
                !is_manifest_text_of(s@, id0, u0, fs0) by {
                if is_manifest_text_of(s@, id0, u0, fs0) {
                    lemma_align(s@, id@, update, id0, u0, fs0);
                    assert(files.deep_view() == fs0);
                    assert(cur as int == p4 as int + files_text(fs0).len());
                    assert(p6 == n);
                }
            }
        }
        return None;
    }
    let m = Manifest { identifier: id, update, files };
    proof {
        assert(s@.subrange(0, p6 as int) =~= consumed2 + s@.subrange(cur as int, p6 as int));
        assert(s@ =~= s@.subrange(0, n as int));
        assert(s@.subrange(0, p1 as int) == "identifier = \""@);
        assert(s@.subrange(0, e1 as int) =~= s@.subrange(0, p1 as int) + s@.subrange(
            p1 as int,
            e1 as int,
        ));
        assert(s@.subrange(0, p2 as int) =~= s@.subrange(0, e1 as int) + s@.subrange(
            e1 as int,
            p2 as int,
        ));
        assert(s@.subrange(0, p3 as int) =~= s@.subrange(0, p2 as int) + s@.subrange(
            p2 as int,
            p3 as int,
        ));
        assert(s@.subrange(0, p4 as int) =~= s@.subrange(0, p3 as int) + s@.subrange(
            p3 as int,
            p4 as int,
        ));
        assert(s@.subrange(p2 as int, p3 as int) == bool_text(update));
        assert(s@ =~= "identifier = \""@ + m.identifier@ + "\"\nupdate = "@ + bool_text(m.update)
            + "\nfiles = ["@ + files_text(m.names()) + "]\n"@);
    }
    Some(m)
}

/// True when every character of `s` may appear in a stored name.
pub fn text_is_plain(s: &str) -> (r: bool)
    ensures
        r == text_ok(s@),
{
    let n = s.unicode_len();
    let mut i: usize = 0;
    while i < n
        invariant
            n == s@.len(),
            i <= n,
            forall|k: int| 0 <= k < i ==> plain_char(#[trigger] s@[k]),
        decreases n - i,
    {
        let c = s.get_char(i);
        if c == '"' || c == '\\' || c == '\n' || c == '\r' {
            assert(!plain_char(s@[i as int]));
            return false;
        }
        i += 1;
    }
    true
}

} // verus!
