use swift_archiver::config::{interpret_yes_no, Config};
use swift_archiver::ident::{determine_date, determine_identifier};
use swift_archiver::manifest::{parse_manifest, text_is_plain, Manifest};
use swift_archiver::metadata::{
    auth_header, build_upload_headers, collection_header, collection_name_of, dotted_date,
    ia_meta_header, ia_swift_meta_header, subject_line, title_line, upload_url,
};
use swift_archiver::session::{is_upload_candidate, plan_session, session_complete};
use swift_archiver::site::{parse_tag_response, trim, Site};
use swift_archiver::text::{str_contains_char, str_eq, strip_characters};

fn strings(v: &[&str]) -> Vec<String> {
    v.iter().map(|s| s.to_string()).collect()
}

fn test_config(test_mode: bool) -> Config {
    Config {
        device_name: "SWX".to_string(),
        access_key: "AK".to_string(),
        secret_key: "SK".to_string(),
        creator: "Someone".to_string(),
        subject_tags: strings(&["soundscapes", "Cornell Swift Recorder"]),
        collection_id: "media".to_string(),
        license_url: "https://creativecommons.org/licenses/by/4.0/".to_string(),
        base_description: "Recordings.".to_string(),
        test_mode,
    }
}

fn test_site() -> Site {
    Site {
        name: "Dundas".to_string(),
        subject_tags: strings(&["Dundas, Ontario"]),
        description: " From a wetland.".to_string(),
        ready_to_upload: true,
    }
}

#[test]
fn it_can_create_identifier() {
    let device_name = "SWX";
    let folder_name = "SWX_2019-01-16";
    let identifier = determine_identifier(folder_name, device_name);

    assert_eq!(identifier, "SWX20190116");
}

#[test]
fn identifier_without_underscore_is_device_name() {
    assert_eq!(determine_identifier("20190116", "SWX"), "SWX");
    assert_eq!(determine_identifier("", "SWX"), "SWX");
}

#[test]
fn identifier_ignores_segments_after_the_date() {
    assert_eq!(determine_identifier("SWX_2019-01-16_late", "SWX"), "SWX20190116");
}

#[test]
fn date_is_second_underscore_segment() {
    assert_eq!(determine_date("SWX_2019-01-16"), "2019-01-16");
    assert_eq!(determine_date("SWX_2019-01-16_late"), "2019-01-16");
    assert_eq!(determine_date("nounderscore"), "");
    assert_eq!(determine_date("trailing_"), "");
}

#[test]
fn strip_characters_removes_every_listed_character() {
    assert_eq!(strip_characters("2019-01-16", "-"), "20190116");
    assert_eq!(strip_characters("a-b_c", "-_"), "abc");
    assert_eq!(strip_characters("", "-"), "");
}

#[test]
fn str_helpers_work() {
    assert!(str_contains_char("abc", 'b'));
    assert!(!str_contains_char("abc", 'z'));
    assert!(str_eq("same", "same"));
    assert!(!str_eq("same", "sam"));
}

#[test]
fn it_can_read_ia_manifest() {
    let text = "identifier = \"HNCSW220190615\"\nupdate = true\nfiles = []\n";
    let ia_manifest = parse_manifest(text).expect("well-formed manifest");

    assert_eq!(ia_manifest.identifier, "HNCSW220190615");
}

#[test]
fn manifest_round_trips_through_its_text() {
    let mut m = Manifest::create_empty("SWX20190116".to_string());
    m.record_file("a.wav".to_string());
    m.record_file("b.wav".to_string());
    let text = m.to_text();
    assert_eq!(
        text,
        "identifier = \"SWX20190116\"\nupdate = true\nfiles = [\"a.wav\", \"b.wav\"]\n"
    );
    let back = parse_manifest(&text).expect("round trip");
    assert_eq!(back.identifier, "SWX20190116");
    assert!(back.update);
    assert_eq!(back.files, vec!["a.wav".to_string(), "b.wav".to_string()]);
}

#[test]
fn empty_manifest_round_trips() {
    let m = Manifest::create_empty("X1".to_string());
    let text = m.to_text();
    assert_eq!(text, "identifier = \"X1\"\nupdate = true\nfiles = []\n");
    let back = parse_manifest(&text).expect("round trip");
    assert_eq!(back.identifier, "X1");
    assert!(back.files.is_empty());
}

#[test]
fn malformed_manifests_are_refused() {
    assert!(parse_manifest("").is_none());
    assert!(parse_manifest("garbage").is_none());
    assert!(parse_manifest("identifier = \"X\"\nupdate = maybe\nfiles = []\n").is_none());
    assert!(parse_manifest("identifier = \"X\"\nupdate = true\nfiles = [\"a\"").is_none());
    assert!(parse_manifest("identifier = \"X\"\nupdate = true\nfiles = []\n extra").is_none());
    assert!(parse_manifest("identifier = \"X\nupdate = true\nfiles = []\n").is_none());
}

#[test]
fn storable_names_hold_no_quote_or_backslash() {
    assert!(text_is_plain("a.wav"));
    assert!(!text_is_plain("a\"b"));
    assert!(!text_is_plain("a\\b"));
    assert!(!text_is_plain("a\nb"));
    let mut m = Manifest::create_empty("ok".to_string());
    assert!(m.is_storable());
    m.record_file("bad\"name".to_string());
    assert!(!m.is_storable());
}

#[test]
fn manifest_contains_is_exact_match() {
    let mut m = Manifest::create_empty("X".to_string());
    m.record_file("a.wav".to_string());
    assert!(m.contains_file("a.wav"));
    assert!(!m.contains_file("a.wa"));
    assert!(!m.contains_file("b.wav"));
}

#[test]
fn hidden_and_manifest_files_are_not_candidates() {
    assert!(!is_upload_candidate(".DS_Store"));
    assert!(!is_upload_candidate("manifest.toml"));
    assert!(!is_upload_candidate(""));
    assert!(is_upload_candidate("a.wav"));
    assert!(is_upload_candidate("manifest.toml2"));
}

#[test]
fn plan_skips_hidden_and_manifest_files() {
    let files = strings(&[".DS_Store", "manifest.toml", "a.wav", "b.wav"]);
    let m = Manifest::create_empty("X".to_string());
    let plan = plan_session(&files, &m);
    assert_eq!(plan, strings(&["a.wav", "b.wav"]));
}

#[test]
fn plan_resumes_with_only_the_missing_file() {
    let mut m = Manifest::create_empty("X".to_string());
    m.record_file("a.wav".to_string());
    m.record_file("b.wav".to_string());
    let files = strings(&["a.wav", "b.wav", "c.wav"]);
    let plan = plan_session(&files, &m);
    assert_eq!(plan, strings(&["c.wav"]));
    for f in plan {
        m.record_file(f);
    }
    assert_eq!(m.files, strings(&["a.wav", "b.wav", "c.wav"]));
}

#[test]
fn second_run_uploads_nothing() {
    let files = strings(&["a.wav", "b.wav", ".hidden", "manifest.toml"]);
    let mut m = Manifest::create_empty("X".to_string());
    let first = plan_session(&files, &m);
    assert_eq!(first, strings(&["a.wav", "b.wav"]));
    for f in first {
        m.record_file(f);
    }
    let before = m.files.clone();
    let second = plan_session(&files, &m);
    assert!(second.is_empty());
    assert_eq!(m.files, before);
    assert!(session_complete(&files, &m));
}

#[test]
fn session_complete_notices_missing_files() {
    let files = strings(&["a.wav", "b.wav"]);
    let mut m = Manifest::create_empty("X".to_string());
    m.record_file("a.wav".to_string());
    assert!(!session_complete(&files, &m));
    m.record_file("b.wav".to_string());
    assert!(session_complete(&files, &m));
}

#[test]
fn subject_joins_base_then_site_tags() {
    let base = strings(&["soundscapes", "Cornell Swift Recorder"]);
    let site = strings(&["Dundas, Ontario"]);
    let line = subject_line(&base, &site);
    assert_eq!(line, "soundscapes;Cornell Swift Recorder;Dundas, Ontario");
}

#[test]
fn subject_of_no_tags_is_empty() {
    assert_eq!(subject_line(&strings(&[]), &strings(&[])), "");
    assert_eq!(subject_line(&strings(&["one"]), &strings(&[])), "one");
}

#[test]
fn test_mode_routes_to_the_test_collection() {
    let c = collection_name_of(&test_config(true));
    assert_eq!(c, "test_collection");
    assert_eq!(
        collection_header(&test_config(true)),
        "x-archive-meta01-collection:test_collection"
    );
    let p = collection_name_of(&test_config(false));
    assert_eq!(p, "media");
}

#[test]
fn meta_headers_use_the_service_encoding() {
    assert_eq!(ia_meta_header("creator", "Someone"), "x-archive-meta-creator:Someone");
    assert_eq!(
        ia_swift_meta_header("location", "Dundas"),
        "x-archive-meta-swift-archiver--location:Dundas"
    );
    assert_eq!(auth_header("AK", "SK"), "authorization:LOW AK:SK");
}

#[test]
fn title_uses_dots_in_the_date() {
    assert_eq!(dotted_date("2019-01-16"), "2019.01.16");
    assert_eq!(
        title_line("SWX", "2019-01-16", "Dundas"),
        "SWX 2019.01.16 Dundas Soundscape"
    );
}

#[test]
fn upload_url_is_bucket_then_file_name() {
    assert_eq!(
        upload_url("SWX20190116", "a.wav"),
        "https://s3.us.archive.org/SWX20190116/a.wav"
    );
}

#[test]
fn header_set_is_complete_and_ordered() {
    let config = test_config(true);
    let site = test_site();
    let headers = build_upload_headers(&config, &site, "2019-01-16");
    assert_eq!(headers.len(), 14);
    assert_eq!(headers[0], "authorization:LOW AK:SK");
    assert_eq!(headers[1], "x-amz-auto-make-bucket:1");
    assert_eq!(headers[2], "x-archive-meta01-collection:test_collection");
    assert_eq!(headers[3], "x-archive-meta-creator:Someone");
    assert_eq!(headers[4], "x-archive-meta-date:2019-01-16");
    assert_eq!(
        headers[5],
        "x-archive-meta-licenseurl:https://creativecommons.org/licenses/by/4.0/"
    );
    assert_eq!(
        headers[6],
        "x-archive-meta-subject:soundscapes;Cornell Swift Recorder;Dundas, Ontario"
    );
    assert_eq!(headers[7], "x-archive-meta-mediatype:audio");
    assert_eq!(headers[8], "x-archive-meta-title:SWX 2019.01.16 Dundas Soundscape");
    assert_eq!(headers[9], "x-archive-meta-description:Recordings. From a wetland.");
    assert_eq!(headers[10], "x-archive-meta-scanner:Swift Archiver v0.1.1");
    assert_eq!(
        headers[11],
        "x-archive-meta-swift-archiver--url:https://github.com/rgeraldporter/swift_archiver"
    );
    assert_eq!(headers[12], "x-archive-meta-swift-archiver--deviceprefix:SWX");
    assert_eq!(headers[13], "x-archive-meta-swift-archiver--location:Dundas");
}

#[test]
fn production_collection_appears_when_test_mode_is_off() {
    let config = test_config(false);
    let site = test_site();
    let headers = build_upload_headers(&config, &site, "2019-01-16");
    assert_eq!(headers[2], "x-archive-meta01-collection:media");
}

#[test]
fn yes_no_answers_are_interpreted() {
    assert_eq!(interpret_yes_no("y"), Some(true));
    assert_eq!(interpret_yes_no("Y"), Some(true));
    assert_eq!(interpret_yes_no("n"), Some(false));
    assert_eq!(interpret_yes_no("N"), Some(false));
    assert_eq!(interpret_yes_no(""), None);
    assert_eq!(interpret_yes_no("yes"), None);
    assert_eq!(interpret_yes_no("x"), None);
}

#[test]
fn trim_removes_outer_whitespace_only() {
    assert_eq!(trim("  a b \t\n"), "a b");
    assert_eq!(trim(""), "");
    assert_eq!(trim("   "), "");
    assert_eq!(trim("ab"), "ab");
}

#[test]
fn tag_answers_are_split_trimmed_and_reversed() {
    let tags = parse_tag_response("soundscape; Hamilton, Ontario; wetland");
    assert_eq!(tags, strings(&["wetland", "Hamilton, Ontario", "soundscape"]));
    assert_eq!(parse_tag_response(" one "), strings(&["one"]));
    assert_eq!(parse_tag_response(""), strings(&[""]));
}
