//! The run-wide configuration value and the interpretation of the
//! yes/no console answer used when no configuration file exists yet.

use vstd::prelude::*;
use vstd::string::*;

verus! {

/// Process-wide configuration, loaded once at startup and immutable for the
/// run.  The surrounding application reads it from the configuration file;
/// this library only consumes the resulting plain values.
pub struct Config {
    /// Recording device name, used as the identifier prefix and as the
    /// `deviceprefix` metadata field.
    pub device_name: String,
    /// Archive access key for the `authorization` header.
    pub access_key: String,
    /// Archive secret key for the `authorization` header.
    pub secret_key: String,
    /// Creator name for the `creator` metadata field.
    pub creator: String,
    /// Base subject tags, emitted before any site-specific tags.
    pub subject_tags: Vec<String>,
    /// Production collection id, used when `test_mode` is off.
    pub collection_id: String,
    /// License URL for the `licenseurl` metadata field.
    pub license_url: String,
    /// Base description text; the site description is appended to it.
    pub base_description: String,
    /// When set, every upload is routed to the fixed test collection.
    pub test_mode: bool,
}

/// How one console answer to a yes/no question is understood: `y`/`Y` means
/// yes, `n`/`N` means no, anything else means the question must be asked
/// again.
pub open spec fn yes_no_of(s: Seq<char>) -> Option<bool> {
    if s == "y"@ || s == "Y"@ {
        Some(true)
    } else if s == "n"@ || s == "N"@ {
        Some(false)
    } else {
        None
    }
}

/// Interprets one console answer to a yes/no question; `None` asks the
/// caller to prompt again.
pub fn interpret_yes_no(answer: &str) -> (r: Option<bool>)
    ensures
        r == yes_no_of(answer@),
{
    proof {
        reveal_strlit("y");
        reveal_strlit("Y");
        reveal_strlit("n");
        reveal_strlit("N");
    }
    if answer.unicode_len() != 1 {
        return None;
    }
    let c = answer.get_char(0);
    if c == 'y' {
        proof {
            assert(answer@ =~= "y"@);
        }
        Some(true)
    } else if c == 'Y' {
        proof {
            assert(answer@ =~= "Y"@);
        }
        Some(true)
    } else if c == 'n' {
        proof {
            assert(answer@ =~= "n"@);
        }
        Some(false)
    } else if c == 'N' {
        proof {
            assert(answer@ =~= "N"@);
        }
        Some(false)
    } else {
        proof {
            assert(answer@ != "y"@ && answer@ != "Y"@ && answer@ != "n"@ && answer@ != "N"@);
        }
        None
    }
}

} // verus!
