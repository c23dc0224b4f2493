//! Assembly of the header set attached to every upload request.
//!
//! Every file of a session is uploaded with the same descriptive fields:
//! the authorization header, the collection, and the metadata fields
//! (creator, date, license, subject tags, media type, title, description,
//! scanner) plus the archiver's own custom fields, namespaced under a fixed
//! prefix so they cannot collide with the service's reserved field names.

use vstd::prelude::*;
use vstd::string::*;

use crate::config::Config;
use crate::site::Site;

verus! {

/// A standard metadata header line: `x-archive-meta-<key>:<value>`.
pub open spec fn meta_header_text(key: Seq<char>, value: Seq<char>) -> Seq<char> {
    "x-archive-meta-"@ + key + seq![':'] + value
}

/// A custom metadata header line, namespaced under the archiver's own
/// prefix: `x-archive-meta-swift-archiver--<key>:<value>`.
pub open spec fn custom_meta_header_text(key: Seq<char>, value: Seq<char>) -> Seq<char> {
    "x-archive-meta-"@ + "swift-archiver--"@ + key + seq![':'] + value
}

/// The authorization header built from the static credential pair.
pub open spec fn auth_header_text(access: Seq<char>, secret: Seq<char>) -> Seq<char> {
    "authorization:LOW "@ + access + seq![':'] + secret
}

/// The collection header line.
pub open spec fn collection_header_text(collection: Seq<char>) -> Seq<char> {
    "x-archive-meta01-collection:"@ + collection
}

/// The collection every upload goes to: the fixed test collection while
/// test mode is on, otherwise the configured production collection id.
pub open spec fn collection_name(test_mode: bool, collection_id: Seq<char>) -> Seq<char> {
    if test_mode {
        "test_collection"@
    } else {
        collection_id
    }
}

/// The date with each hyphen replaced by a dot, as inserted into titles.
pub open spec fn dotted(date: Seq<char>) -> Seq<char> {
    date.map_values(|c: char| if c == '-' { '.' } else { c })
}

/// The generated title: device name, dot-separated date and site name,
/// joined with spaces and suffixed with the word `Soundscape`.
pub open spec fn title_text(device: Seq<char>, date: Seq<char>, site_name: Seq<char>) -> Seq<
    char,
> {
    device + seq![' '] + dotted(date) + seq![' '] + site_name + " Soundscape"@
}

/// The description: the configured base description immediately followed by
/// the site description, with no separator.
pub open spec fn description_text(base: Seq<char>, site_description: Seq<char>) -> Seq<char> {
    base + site_description
}

/// The subject tags joined by semicolons, without a trailing semicolon.
pub open spec fn tags_line(tags: Seq<Seq<char>>) -> Seq<char>
    decreases tags.len(),
{
    if tags.len() == 0 {
        Seq::<char>::empty()
    } else if tags.len() == 1 {
        tags[0]
    } else {
        tags_line(tags.drop_last()) + seq![';'] + tags.last()
    }
}

/// The emitted subject string: all base tags first, then all site tags,
/// each source's order preserved, joined by semicolons.
pub open spec fn subject_text(base_tags: Seq<Seq<char>>, site_tags: Seq<Seq<char>>) -> Seq<
    char,
> {
    tags_line(base_tags + site_tags)
}

/// The URL one file is uploaded to: bucket (the session identifier) and
/// object name (the file's base name) under the archive service.
pub open spec fn upload_url_text(bucket: Seq<char>, file_name: Seq<char>) -> Seq<char> {
    "https://s3.us.archive.org/"@ + bucket + seq!['/'] + file_name
}

/// The complete ordered header set for one upload of a session described by
/// `config`, `site` and the session's display date.
pub open spec fn upload_headers_of(config: Config, site: Site, date: Seq<char>) -> Seq<
    Seq<char>,
> {
    seq![
        auth_header_text(config.access_key@, config.secret_key@),
        "x-amz-auto-make-bucket:1"@,
        collection_header_text(collection_name(config.test_mode, config.collection_id@)),
        meta_header_text("creator"@, config.creator@),
        meta_header_text("date"@, date),
        meta_header_text("licenseurl"@, config.license_url@),
        meta_header_text(
            "subject"@,
            subject_text(config.subject_tags.deep_view(), site.subject_tags.deep_view()),
        ),
        meta_header_text("mediatype"@, "audio"@),
        meta_header_text("title"@, title_text(config.device_name@, date, site.name@)),
        meta_header_text(
            "description"@,
            description_text(config.base_description@, site.description@),
        ),
        meta_header_text("scanner"@, "Swift Archiver v0.1.1"@),
        custom_meta_header_text("url"@, "https://github.com/rgeraldporter/swift_archiver"@),
        custom_meta_header_text("deviceprefix"@, config.device_name@),
        custom_meta_header_text("location"@, site.name@),
    ]
}

/// Builds a standard metadata header line.
pub fn ia_meta_header(key: &str, value: &str) -> (r: String)
    ensures
        r@ == meta_header_text(key@, value@),
{
    let mut h = String::new();
    h.append("x-archive-meta-");
    h.append(key);
    h.append(":");
    h.append(value);
    proof {
        reveal_strlit(":");
        assert(":"@ =~= seq![':']);
        assert(h@ =~= meta_header_text(key@, value@));
    }
    h
}

/// Builds a custom metadata header line under the archiver's namespace
/// prefix.
pub fn ia_swift_meta_header(key: &str, value: &str) -> (r: String)
    ensures
        r@ == custom_meta_header_text(key@, value@),
{
    let mut h = String::new();
    h.append("x-archive-meta-");
    h.append("swift-archiver--");
    h.append(key);
    h.append(":");
    h.append(value);
    proof {
        reveal_strlit(":");
        assert(":"@ =~= seq![':']);
        assert(h@ =~= custom_meta_header_text(key@, value@));
    }
    h
}

/// Builds the authorization header from the credential pair.
pub fn auth_header(access_key: &str, secret_key: &str) -> (r: String)
    ensures
        r@ == auth_header_text(access_key@, secret_key@),
{
    let mut h = String::new();
    h.append("authorization:LOW ");
    h.append(access_key);
    h.append(":");
    h.append(secret_key);
    proof {
        reveal_strlit(":");
        assert(":"@ =~= seq![':']);
        assert(h@ =~= auth_header_text(access_key@, secret_key@));
    }
    h
}

/// The collection an upload goes to under this configuration.
pub fn collection_name_of(config: &Config) -> (r: String)
    ensures
        r@ == collection_name(config.test_mode, config.collection_id@),
{
    if config.test_mode {
        String::from_str("test_collection")
    } else {
        config.collection_id.clone()
    }
}

/// The date with each hyphen replaced by a dot.
pub fn dotted_date(date: &str) -> (r: String)
    ensures
        r@ == dotted(date@),
{
    let n = date.unicode_len();
    let mut out = String::new();
    proof {
        assert(out@ =~= dotted(date@.take(0)));
    }
    let mut i: usize = 0;
    while i < n
        invariant
            n == date@.len(),
            i <= n,
            out@ == dotted(date@.take(i as int)),
        decreases n - i,
    {
        let c = date.get_char(i);
        if c == '-' {
            out.append(".");
            proof {
                reveal_strlit(".");
                assert("."@ =~= seq!['.']);
            }
        } else {
            let piece = date.substring_char(i, i + 1);
            proof {
                assert(piece@ =~= seq![date@[i as int]]);
            }
            out.append(piece);
        }
        proof {
            assert(out@ =~= dotted(date@.take(i + 1)));
        }
        i += 1;
    }
    proof {
        assert(date@.take(n as int) =~= date@);
    }
    out
}

/// Builds the generated title for a session.
pub fn title_line(device: &str, date: &str, site_name: &str) -> (r: String)
    ensures
        r@ == title_text(device@, date@, site_name@),
{
    let dots = dotted_date(date);
    let mut t = String::new();
    t.append(device);
    t.append(" ");
    t.append(dots.as_str());
    t.append(" ");
    t.append(site_name);
    t.append(" Soundscape");
    proof {
        reveal_strlit(" ");
        assert(" "@ =~= seq![' ']);
        assert(t@ =~= title_text(device@, date@, site_name@));
    }
    t
}

proof fn lemma_tags_line_step(all: Seq<Seq<char>>, k: int)
    requires
        0 <= k < all.len(),
    ensures
        tags_line(all.take(k + 1)) == if k == 0 {
            all[0]
        } else {
            tags_line(all.take(k)) + seq![';'] + all[k]
        },
{
    let t = all.take(k + 1);
    if k == 0 {
        assert(t.len() == 1);
        assert(t[0] == all[0]);
    } else {
        assert(t.drop_last() =~= all.take(k));
        assert(t.last() == all[k]);
    }
}

/// Builds the subject string: every base tag, then every site tag, joined
/// by semicolons with no trailing semicolon.
pub fn subject_line(base_tags: &Vec<String>, site_tags: &Vec<String>) -> (r: String)
    ensures
        r@ == subject_text(base_tags.deep_view(), site_tags.deep_view()),
{
    let ghost all = base_tags.deep_view() + site_tags.deep_view();
    let mut out = String::new();
    proof {
        reveal_strlit(";");
        assert(";"@ =~= seq![';']);
        assert(out@ =~= tags_line(all.take(0)));
    }
    let mut i: usize = 0;
    while i < base_tags.len()
        invariant
            all == base_tags.deep_view() + site_tags.deep_view(),
            i <= base_tags.len(),
            ";"@ =~= seq![';'],
            out@ == tags_line(all.take(i as int)),
        decreases base_tags.len() - i,
    {
        if i > 0 {
            out.append(";");
        }
        out.append(base_tags[i].as_str());
        proof {
            assert(all[i as int] == base_tags@[i as int]@);
            lemma_tags_line_step(all, i as int);
            assert(out@ =~= tags_line(all.take(i + 1)));
        }
        i += 1;
    }
    let base_len = base_tags.len();
    let mut j: usize = 0;
    while j < site_tags.len()
        invariant
            all == base_tags.deep_view() + site_tags.deep_view(),
            base_len == base_tags.len(),
            j <= site_tags.len(),
            ";"@ =~= seq![';'],
            out@ == tags_line(all.take(base_len + j)),
        decreases site_tags.len() - j,
    {
        if base_len > 0 || j > 0 {
            out.append(";");
        }
        out.append(site_tags[j].as_str());
        proof {
            let k: int = base_len + j;
            assert(all[k] == site_tags@[j as int]@);
            lemma_tags_line_step(all, k);
            assert(out@ =~= tags_line(all.take(k + 1)));
        }
        j += 1;
    }
    proof {
        assert(all.take(base_len + site_tags.len()) =~= all);
    }
    out
}

/// Builds the URL one file of a session is uploaded to.
pub fn upload_url(bucket: &str, file_name: &str) -> (r: String)
    ensures
        r@ == upload_url_text(bucket@, file_name@),
{
    let mut u = String::new();
    u.append("https://s3.us.archive.org/");
    u.append(bucket);
    u.append("/");
    u.append(file_name);
    proof {
        reveal_strlit("/");
        assert("/"@ =~= seq!['/']);
        assert(u@ =~= upload_url_text(bucket@, file_name@));
    }
    u
}

/// Builds the collection header line for this configuration.
pub fn collection_header(config: &Config) -> (r: String)
    ensures
        r@ == collection_header_text(collection_name(config.test_mode, config.collection_id@)),
{
    let name = collection_name_of(config);
    let mut h = String::new();
    h.append("x-archive-meta01-collection:");
    h.append(name.as_str());
    proof {
        assert(h@ =~= collection_header_text(
            collection_name(config.test_mode, config.collection_id@),
        ));
    }
    h
}

/// Assembles the complete ordered header set for one upload: authorization,
/// bucket creation, collection, the standard metadata fields, and the
/// archiver's custom fields, exactly in the order the service receives
/// them.
pub fn build_upload_headers(config: &Config, site: &Site, date: &str) -> (r: Vec<String>)
    ensures
        r.deep_view() == upload_headers_of(*config, *site, date@),
{
    let mut headers: Vec<String> = Vec::new();
    headers.push(auth_header(config.access_key.as_str(), config.secret_key.as_str()));
    headers.push(String::from_str("x-amz-auto-make-bucket:1"));
    headers.push(collection_header(config));
    headers.push(ia_meta_header("creator", config.creator.as_str()));
    headers.push(ia_meta_header("date", date));
    headers.push(ia_meta_header("licenseurl", config.license_url.as_str()));
    let subject = subject_line(&config.subject_tags, &site.subject_tags);
    headers.push(ia_meta_header("subject", subject.as_str()));
    headers.push(ia_meta_header("mediatype", "audio"));
    let title = title_line(config.device_name.as_str(), date, site.name.as_str());
    headers.push(ia_meta_header("title", title.as_str()));
    let mut description = String::new();
    description.append(config.base_description.as_str());
    description.append(site.description.as_str());
    headers.push(ia_meta_header("description", description.as_str()));
    headers.push(ia_meta_header("scanner", "Swift Archiver v0.1.1"));
    headers.push(
        ia_swift_meta_header("url", "https://github.com/rgeraldporter/swift_archiver"),
    );
    headers.push(ia_swift_meta_header("deviceprefix", config.device_name.as_str()));
    headers.push(ia_swift_meta_header("location", site.name.as_str()));
    proof {
        assert(headers.deep_view() =~~= upload_headers_of(*config, *site, date@));
    }
    headers
}

} // verus!
