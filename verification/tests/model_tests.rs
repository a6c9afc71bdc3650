use github_parser::model::Language;
use github_parser::model::Repository;

fn repo(owner: &str, name: &str, stars: usize, languages: Vec<Language>) -> Repository {
    Repository {
        owner: String::from(owner),
        name: String::from(name),
        stars,
        is_fork: false,
        is_archived: false,
        languages,
        disk_usage_kb: 0,
        description: None,
        primary_language: None,
        default_branch_commit_count: None,
        license: None,
    }
}

#[test]
fn quoted_language_collapses_with_its_sanitized_alias() {
    // One language written as O'Caml, another as OCaml: after sanitization
    // they are the same name and only one entry survives.
    let r = repo(
        "alice",
        "repo",
        1,
        vec![
            Language { name: String::from("O'Caml"), size: 10 },
            Language { name: String::from("OCaml"), size: 20 },
        ],
    );
    let s = r.with_sanitized_fields();
    assert_eq!(s.languages.len(), 1);
    assert_eq!(s.languages[0].name, "OCaml");
    assert!(s.languages[0].size == 10 || s.languages[0].size == 20);
}

#[test]
fn language_size_is_clamped_to_the_column_maximum() {
    let r = repo(
        "alice",
        "repo",
        1,
        vec![Language { name: String::from("Rust"), size: usize::MAX }],
    );
    let s = r.with_sanitized_fields();
    assert_eq!(s.languages[0].size, 2147483647);
}

#[test]
fn size_below_the_maximum_is_kept() {
    let r = repo("alice", "repo", 1, vec![Language { name: String::from("Rust"), size: 42 }]);
    let s = r.with_sanitized_fields();
    assert_eq!(s.languages[0].size, 42);
}

#[test]
fn text_fields_are_sanitized_and_plain_fields_kept() {
    let mut r = repo("o'hara", "na'me", 7, vec![]);
    r.description = Some(String::from("it's nice"));
    r.license = Some(String::from("MIT\\X"));
    r.disk_usage_kb = 9;
    let s = r.with_sanitized_fields();
    // The owner is an identity field and is not sanitized here.
    assert_eq!(s.owner, "o'hara");
    assert_eq!(s.name, "name");
    assert_eq!(s.stars, 7);
    assert_eq!(s.disk_usage_kb, 9);
    assert_eq!(s.description, Some(String::from("its nice")));
    assert_eq!(s.license, Some(String::from("MITX")));
    assert_eq!(s.primary_language, None);
}

#[test]
fn absent_description_stays_absent() {
    let r = repo("alice", "repo", 1, vec![]);
    let s = r.with_sanitized_fields();
    assert_eq!(s.description, None);
}
