//! Deriving the archive identifier and the display date from a session
//! folder name.
//!
//! A session folder is conventionally named `<device>_<date>` (for example
//! `SWX_2019-01-16`).  The archive identifier is the device name followed by
//! the date with its hyphens removed (`SWX20190116`); the display date is the
//! date segment kept as written (`2019-01-16`).

use vstd::prelude::*;
use vstd::string::*;

use crate::text::find_char_from;
use crate::text::lemma_index_of_first_is;
use crate::text::lemma_index_of_first_none;
use crate::text::strip_characters;
use crate::text::stripped;

verus! {

/// The segment of `s` between its first underscore and the following
/// underscore (or the end of `s`); empty when `s` has no underscore.
pub open spec fn date_segment(s: Seq<char>) -> Seq<char> {
    match s.index_of_first('_') {
        None => Seq::<char>::empty(),
        Some(i) => {
            let rest = s.subrange(i + 1, s.len() as int);
            match rest.index_of_first('_') {
                None => rest,
                Some(j) => rest.subrange(0, j),
            }
        },
    }
}

/// The identifier derived from a folder name and a device name: the device
/// name followed by the folder's date segment with every hyphen removed.
pub open spec fn identifier_of(folder: Seq<char>, device: Seq<char>) -> Seq<char> {
    device + stripped(date_segment(folder), seq!['-'])
}

/// The date segment of a folder name: the part between the first underscore
/// and the next underscore or the end of the name; empty when the name has
/// no underscore.
pub fn determine_date(folder_name: &str) -> (r: String)
    ensures
        r@ == date_segment(folder_name@),
{
    let n = folder_name.unicode_len();
    match find_char_from(folder_name, '_', 0) {
        None => {
            proof {
                lemma_index_of_first_none(folder_name@, '_');
            }
            String::new()
        },
        Some(i) => {
            proof {
                lemma_index_of_first_is(folder_name@, '_', i as int);
            }
            let ghost rest = folder_name@.subrange(i + 1, n as int);
            let end = match find_char_from(folder_name, '_', i + 1) {
                None => {
                    proof {
                        assert(forall|k: int| 0 <= k < rest.len() ==> rest[k] != '_');
                        lemma_index_of_first_none(rest, '_');
                    }
                    n
                },
                Some(j) => {
                    proof {
                        assert(rest[j - i - 1] == '_');
                        assert(forall|k: int| 0 <= k < j - i - 1 ==> rest[k] != '_');
                        lemma_index_of_first_is(rest, '_', j - i - 1);
                    }
                    j
                },
            };
            let seg = folder_name.substring_char(i + 1, end);
            proof {
                assert(seg@ =~= date_segment(folder_name@));
            }
            seg.to_owned()
        },
    }
}

/// Derives the archive identifier for a session: the device name followed
/// by the folder's date segment with its hyphens stripped.
///
/// Example: folder `SWX_2019-01-16` with device `SWX` gives `SWX20190116`.
pub fn determine_identifier(folder_name: &str, device_name: &str) -> (r: String)
    ensures
        r@ == identifier_of(folder_name@, device_name@),
{
    let date_portion = determine_date(folder_name);
    let date_identifier = strip_characters(date_portion.as_str(), "-");
    proof {
        reveal_strlit("-");
        assert("-"@ =~= seq!['-']);
    }
    let mut identifier = String::new();
    identifier.append(device_name);
    identifier.append(date_identifier.as_str());
    identifier
}

/// For a folder name of the form `<prefix>_<date>` or `<prefix>_<date>_<anything>`,
/// where neither the prefix nor the date contains an underscore, the derived
/// identifier is the device name followed by the date with its hyphens
/// stripped.
pub proof fn lemma_identifier_of_structured_folder(
    prefix: Seq<char>,
    date: Seq<char>,
    rest: Seq<char>,
    device: Seq<char>,
)
    requires
        !prefix.contains('_'),
        !date.contains('_'),
        rest.len() == 0 || rest[0] == '_',
    ensures
        identifier_of(prefix + seq!['_'] + date + rest, device) == device + stripped(
            date,
            seq!['-'],
        ),
{
    let folder = prefix + seq!['_'] + date + rest;
    let p = prefix.len() as int;
    assert(folder[p] == '_');
    assert forall|k: int| 0 <= k < p implies folder[k] != '_' by {
        assert(folder[k] == prefix[k]);
        if folder[k] == '_' {
            assert(prefix.contains('_'));
        }
    }
    lemma_index_of_first_is(folder, '_', p);
    let tail = folder.subrange(p + 1, folder.len() as int);
    assert(tail =~= date + rest);
    if rest.len() == 0 {
        assert forall|k: int| 0 <= k < tail.len() implies tail[k] != '_' by {
            assert(tail[k] == date[k]);
            if tail[k] == '_' {
                assert(date.contains('_'));
            }
        }
        lemma_index_of_first_none(tail, '_');
        assert(date_segment(folder) =~= date);
    } else {
        let d = date.len() as int;
        assert(tail[d] == rest[0]);
        assert forall|k: int| 0 <= k < d implies tail[k] != '_' by {
            assert(tail[k] == date[k]);
            if tail[k] == '_' {
                assert(date.contains('_'));
            }
        }
        lemma_index_of_first_is(tail, '_', d);
        assert(tail.subrange(0, d) =~= date);
        assert(date_segment(folder) =~= date);
    }
}

/// A folder name without any underscore has an empty date segment, so the
/// derived identifier is the device name alone.
pub proof fn lemma_identifier_without_underscore(folder: Seq<char>, device: Seq<char>)
    requires
        !folder.contains('_'),
    ensures
        identifier_of(folder, device) == device,
{
    folder.index_of_first_ensures('_');
    match folder.index_of_first('_') {
        None => {},
        Some(j) => {
            assert(folder.contains('_'));
        },
    }
    assert(date_segment(folder) =~= Seq::<char>::empty());
    reveal(Seq::filter);
    assert(stripped(Seq::<char>::empty(), seq!['-']) =~= Seq::<char>::empty());
    assert(identifier_of(folder, device) =~= device);
}

} // verus!
