use scurry::catalog::{
    calculate_available_versions, file_extension, file_stem, get_name_and_version,
    hash_file_contents, is_migration_script, sort_versions, to_hex, ScriptFile,
};
use scurry::error::ScurryError;
use scurry::get_available_versions;
use scurry::versions::text_less;
use scurry::Version;

fn script(dir: &str, file_name: &str, contents: &str) -> ScriptFile {
    ScriptFile {
        path: Some(format!("{}/{}", dir, file_name)),
        file_name: file_name.to_string(),
        contents: contents.as_bytes().to_vec(),
    }
}

fn tuples(vs: &[Version]) -> Vec<(String, String, String)> {
    vs.iter()
        .map(|v| (v.version.clone(), v.hash.clone(), v.name.clone()))
        .collect()
}

#[test]
fn name_without_separator_is_a_parse_error() {
    let r = get_name_and_version("noseparator.sql");
    assert!(matches!(r, Err(ScurryError::Parse(_))));
}

#[test]
fn name_keeps_later_separators() {
    let (version, name) = get_name_and_version("001__a__b.sql").unwrap();
    assert_eq!(version, "001");
    assert_eq!(name, "a__b");
}

#[test]
fn name_splits_at_first_separator_of_a_run() {
    let (version, name) = get_name_and_version("002___x.sql").unwrap();
    assert_eq!(version, "002");
    assert_eq!(name, "_x");
}

#[test]
fn name_uses_the_stem_only() {
    let (version, name) = get_name_and_version("003__add.users.sql").unwrap();
    assert_eq!(version, "003");
    assert_eq!(name, "add.users");
}

#[test]
fn stem_and_extension_follow_path_rules() {
    assert_eq!(file_stem("001__init.sql"), "001__init");
    assert_eq!(file_extension("001__init.sql"), Some("sql".to_string()));
    assert_eq!(file_stem(".sql"), ".sql");
    assert_eq!(file_extension(".sql"), None);
    assert_eq!(file_stem("README"), "README");
    assert_eq!(file_extension("README"), None);
    assert_eq!(file_stem("a.b.c"), "a.b");
    assert_eq!(file_extension("a.b.c"), Some("c".to_string()));
    assert_eq!(file_extension("trailing."), Some("".to_string()));
}

#[test]
fn only_sql_extension_marks_a_script() {
    assert!(is_migration_script("001__init.sql"));
    assert!(!is_migration_script("001__init.SQL"));
    assert!(!is_migration_script("001__init.sql.bak"));
    assert!(!is_migration_script(".sql"));
    assert!(!is_migration_script("notes.txt"));
    assert!(!is_migration_script("sql"));
}

#[test]
fn sha1_hex_of_known_input() {
    assert_eq!(
        hash_file_contents(b"hello world"),
        "2aae6c35c94fcfb415dbe95f408b9ce91ee846ed"
    );
    assert_eq!(
        hash_file_contents(b""),
        "da39a3ee5e6b4b0d3255bfef95601890afd80709"
    );
}

#[test]
fn hex_is_lower_case_two_digits_per_byte() {
    assert_eq!(to_hex(&[0x00, 0x0f, 0xa5, 0xff]), "000fa5ff");
    assert_eq!(to_hex(&[]), "");
}

#[test]
fn text_order_is_lexicographic() {
    assert!(text_less("001", "002"));
    assert!(!text_less("002", "001"));
    assert!(!text_less("001", "001"));
    assert!(text_less("01", "010"));
    assert!(text_less("10", "9"));
    assert!(text_less("", "a"));
    assert!(!text_less("a", ""));
    assert!(text_less("Z", "a"));
}

#[test]
fn loading_ignores_listing_order() {
    let a = vec![
        script("m", "002__two.sql", "create table b();"),
        script("m", "001__one.sql", "create table a();"),
        script("m", "003__three.sql", "create table c();"),
    ];
    let b = vec![
        script("m", "003__three.sql", "create table c();"),
        script("m", "001__one.sql", "create table a();"),
        script("m", "002__two.sql", "create table b();"),
    ];
    let ca = calculate_available_versions(&a).unwrap();
    let cb = calculate_available_versions(&b).unwrap();
    assert_eq!(tuples(&ca), tuples(&cb));
    let versions: Vec<&str> = ca.iter().map(|v| v.version.as_str()).collect();
    assert_eq!(versions, vec!["001", "002", "003"]);
    assert_eq!(ca[0].path, "m/001__one.sql");
    assert_eq!(ca[0].name, "one");
    assert_eq!(ca[0].hash, hash_file_contents(b"create table a();"));
}

#[test]
fn loading_sorts_as_strings_not_numbers() {
    let files = vec![
        script("m", "10__ten.sql", "x"),
        script("m", "9__nine.sql", "y"),
        script("m", "100__hundred.sql", "z"),
    ];
    let c = get_available_versions(&files).unwrap();
    let versions: Vec<&str> = c.iter().map(|v| v.version.as_str()).collect();
    assert_eq!(versions, vec!["10", "100", "9"]);
}

#[test]
fn loading_keeps_listing_order_for_equal_versions() {
    let files = vec![
        script("m", "002__b.sql", "b"),
        script("m", "001__second.sql", "2"),
        script("m", "001__first.sql", "1"),
    ];
    let c = calculate_available_versions(&files).unwrap();
    let names: Vec<&str> = c.iter().map(|v| v.name.as_str()).collect();
    assert_eq!(names, vec!["second", "first", "b"]);
}

#[test]
fn loading_an_empty_listing_gives_an_empty_catalog() {
    let c = calculate_available_versions(&[]).unwrap();
    assert!(c.is_empty());
}

#[test]
fn loading_rejects_a_bad_file_name() {
    let files = vec![
        script("m", "001__one.sql", "a"),
        script("m", "noseparator.sql", "b"),
    ];
    let r = calculate_available_versions(&files);
    assert!(matches!(r, Err(ScurryError::Parse(_))));
}

#[test]
fn loading_rejects_a_path_that_is_not_text() {
    let files = vec![ScriptFile {
        path: None,
        file_name: "001__one.sql".to_string(),
        contents: b"a".to_vec(),
    }];
    let r = calculate_available_versions(&files);
    assert!(matches!(r, Err(ScurryError::Parse(_))));
}

#[test]
fn hash_changes_with_contents() {
    let a = calculate_available_versions(&[script("m", "001__one.sql", "a")]).unwrap();
    let b = calculate_available_versions(&[script("m", "001__one.sql", "b")]).unwrap();
    assert_ne!(a[0].hash, b[0].hash);
    assert!(a[0] != b[0]);
}

#[test]
fn sorting_is_stable() {
    let mk = |v: &str, n: &str| Version {
        path: String::new(),
        name: n.to_string(),
        hash: String::new(),
        version: v.to_string(),
    };
    let sorted = sort_versions(&[mk("b", "1"), mk("a", "2"), mk("b", "3"), mk("a", "4")]);
    let names: Vec<&str> = sorted.iter().map(|v| v.name.as_str()).collect();
    assert_eq!(names, vec!["2", "4", "1", "3"]);
}

