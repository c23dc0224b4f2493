//! Planning one session's uploads: which files of a session directory
//! still have to be transferred, and when a session is complete.
//!
//! The application enumerates the directory and performs the transfers;
//! this module makes every decision.  A run uploads exactly the planned
//! files in order, records each in the manifest right after its transfer
//! succeeds, and a later run over the unchanged directory plans nothing.

use vstd::prelude::*;
use vstd::string::*;

use crate::manifest::Manifest;
use crate::text::str_eq;

verus! {

/// True when a directory entry takes part in the upload: hidden files
/// (leading dot) and the manifest file itself are never candidates.
pub open spec fn candidate(name: Seq<char>) -> bool {
    name.len() > 0 && name[0] != '.' && name != "manifest.toml"@
}

/// The names a run over `files` still has to upload when `uploaded` is
/// already recorded: the candidates not yet recorded, in directory order.
pub open spec fn pending_of(files: Seq<Seq<char>>, uploaded: Seq<Seq<char>>) -> Seq<Seq<char>> {
    files.filter(|f: Seq<char>| candidate(f) && !uploaded.contains(f))
}

/// True when `name` takes part in the upload; hidden files and the
/// manifest file are skipped.
pub fn is_upload_candidate(name: &str) -> (r: bool)
    ensures
        r == candidate(name@),
{
    if name.unicode_len() == 0 {
        return false;
    }
    if name.get_char(0) == '.' {
        return false;
    }
    if str_eq(name, "manifest.toml") {
        return false;
    }
    true
}

/// The ordered list of files an upload run still has to transfer: every
/// candidate of `file_names` whose name the manifest has not recorded,
/// in their given order.
pub fn plan_session(file_names: &Vec<String>, manifest: &Manifest) -> (r: Vec<String>)
    ensures
        r.deep_view() == pending_of(file_names.deep_view(), manifest.names()),
{
    let ghost fv = file_names.deep_view();
    let ghost pred = |f: Seq<char>| candidate(f) && !manifest.names().contains(f);
    let mut plan: Vec<String> = Vec::new();
    proof {
        assert(fv.take(0) =~= Seq::<Seq<char>>::empty());
        reveal(Seq::filter);
        assert(plan.deep_view() =~= pending_of(fv.take(0), manifest.names()));
    }
    let mut i: usize = 0;
    while i < file_names.len()
        invariant
            fv == file_names.deep_view(),
            pred == (|f: Seq<char>| candidate(f) && !manifest.names().contains(f)),
            i <= file_names.len(),
            plan.deep_view() == fv.take(i as int).filter(pred),
        decreases file_names.len() - i,
    {
        let name = &file_names[i];
        proof {
            assert(fv[i as int] == name@);
        }
        if is_upload_candidate(name.as_str()) && !manifest.contains_file(name.as_str()) {
            plan.push(name.clone());
        }
        proof {
            assert(fv.take(i + 1) =~= fv.take(i as int).push(fv[i as int]));
            Seq::<Seq<char>>::lemma_filter_push(fv.take(i as int), fv[i as int], pred);
            assert(plan.deep_view() =~~= fv.take(i + 1).filter(pred));
        }
        i += 1;
    }
    proof {
        assert(fv.take(file_names@.len() as int) =~= fv);
    }
    plan
}

/// True when every candidate file of the session is recorded in the
/// manifest, so that a run would transfer nothing.
pub fn session_complete(file_names: &Vec<String>, manifest: &Manifest) -> (r: bool)
    ensures
        r == (pending_of(file_names.deep_view(), manifest.names()).len() == 0),
{
    let ghost fv = file_names.deep_view();
    let ghost pred = |f: Seq<char>| candidate(f) && !manifest.names().contains(f);
    let mut i: usize = 0;
    while i < file_names.len()
        invariant
            fv == file_names.deep_view(),
            pred == (|f: Seq<char>| candidate(f) && !manifest.names().contains(f)),
            i <= file_names.len(),
            forall|k: int| 0 <= k < i ==> !pred(#[trigger] fv[k]),
        decreases file_names.len() - i,
    {
        let name = &file_names[i];
        proof {
            assert(fv[i as int] == name@);
        }
        if is_upload_candidate(name.as_str()) && !manifest.contains_file(name.as_str()) {
            proof {
                Seq::<Seq<char>>::lemma_filter_contains(fv, pred, i as int);
            }
            assert(pending_of(fv, manifest.names()).contains(fv[i as int]));
            return false;
        }
        i += 1;
    }
    proof {
        assert(fv.all(|f: Seq<char>| !pred(f)));
        fv.lemma_all_neg_filter_empty(pred);
    }
    true
}

/// A run is idempotent: once every file planned against a manifest has
/// been recorded, a second run over the unchanged file list plans no
/// upload at all, and recording its (empty) plan leaves the recorded list
/// unchanged.
pub proof fn lemma_second_run_plans_nothing(files: Seq<Seq<char>>, uploaded: Seq<Seq<char>>)
    ensures
        pending_of(files, uploaded + pending_of(files, uploaded)).len() == 0,
        (uploaded + pending_of(files, uploaded)) + pending_of(
            files,
            uploaded + pending_of(files, uploaded),
        ) == uploaded + pending_of(files, uploaded),
{
    let pred1 = |f: Seq<char>| candidate(f) && !uploaded.contains(f);
    let planned = pending_of(files, uploaded);
    let after = uploaded + planned;
    let pred2 = |f: Seq<char>| candidate(f) && !after.contains(f);
    assert forall|i: int| 0 <= i < files.len() implies !pred2(#[trigger] files[i]) by {
        let f = files[i];
        if candidate(f) {
            if uploaded.contains(f) {
                let j = choose|j: int| 0 <= j < uploaded.len() && uploaded[j] == f;
                assert(after[j] == f);
                assert(after.contains(f));
            } else {
                assert(pred1(f));
                Seq::<Seq<char>>::lemma_filter_contains(files, pred1, i);
                let j = choose|j: int| 0 <= j < planned.len() && planned[j] == f;
                assert(after[uploaded.len() + j] == f);
                assert(after.contains(f));
            }
        }
    }
    assert(files.all(|f: Seq<char>| !pred2(f)));
    files.lemma_all_neg_filter_empty(pred2);
    assert(after + pending_of(files, after) =~= after);
}

/// Resumability: a run over `files` with `uploaded` already recorded
/// transfers exactly the candidate files that are not recorded yet — every
/// planned name is an unrecorded candidate from the directory, and every
/// unrecorded candidate of the directory is planned.  With
/// [`Manifest::record_file`] appending each planned name in order, the
/// manifest afterwards lists the old names followed by exactly the missing
/// ones.
pub proof fn lemma_run_uploads_exactly_missing(files: Seq<Seq<char>>, uploaded: Seq<Seq<char>>)
    ensures
        forall|f: Seq<char>|
            #[trigger] pending_of(files, uploaded).contains(f) ==> candidate(f)
                && !uploaded.contains(f) && files.contains(f),
        forall|f: Seq<char>|
            #[trigger] files.contains(f) && candidate(f) && !uploaded.contains(f)
                ==> pending_of(files, uploaded).contains(f),
{
    let pred = |f: Seq<char>| candidate(f) && !uploaded.contains(f);
    let p = pending_of(files, uploaded);
    assert forall|f: Seq<char>| #[trigger] p.contains(f) implies candidate(f)
        && !uploaded.contains(f) && files.contains(f) by {
        let i = choose|i: int| 0 <= i < p.len() && p[i] == f;
        Seq::<Seq<char>>::lemma_filter_pred(files, pred, i);
        Seq::<Seq<char>>::lemma_filter_contains_rev(files, pred, f);
    }
    assert forall|f: Seq<char>| #[trigger] files.contains(f) && candidate(f)
        && !uploaded.contains(f) implies p.contains(f) by {
        let i = choose|i: int| 0 <= i < files.len() && files[i] == f;
        Seq::<Seq<char>>::lemma_filter_contains(files, pred, i);
    }
}

/// Hidden files and the manifest file are never candidates for upload: a
/// name that starts with a dot, or is the manifest file's own name, never
/// appears in any plan, whatever the directory holds and whatever is
/// already recorded.
pub proof fn lemma_ignored_never_planned(
    files: Seq<Seq<char>>,
    uploaded: Seq<Seq<char>>,
    name: Seq<char>,
)
    requires
        (name.len() > 0 && name[0] == '.') || name == "manifest.toml"@,
    ensures
        !pending_of(files, uploaded).contains(name),
{
    let pred = |f: Seq<char>| candidate(f) && !uploaded.contains(f);
    let p = pending_of(files, uploaded);
    if p.contains(name) {
        let i = choose|i: int| 0 <= i < p.len() && p[i] == name;
        Seq::<Seq<char>>::lemma_filter_pred(files, pred, i);
        assert(candidate(name));
    }
}

} // verus!
