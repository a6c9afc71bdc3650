use github_parser::dedup::dedup_repositories;
use github_parser::dedup::prepare_repositories;
use github_parser::model::Language;
use github_parser::model::Repository;

fn repo(owner: &str, name: &str, stars: usize) -> Repository {
    Repository {
        owner: String::from(owner),
        name: String::from(name),
        stars,
        is_fork: false,
        is_archived: false,
        languages: vec![],
        disk_usage_kb: 0,
        description: None,
        primary_language: None,
        default_branch_commit_count: None,
        license: None,
    }
}

#[test]
fn two_records_with_one_identity_leave_one_row() {
    // owner=alice, name=repo, once with stars=5 and once with stars=10:
    // exactly one survivor, whose stars value is one of the two inputs.
    let input = vec![repo("alice", "repo", 5), repo("alice", "repo", 10)];
    let out = dedup_repositories(input);
    assert_eq!(out.len(), 1);
    assert_eq!(out[0].owner, "alice");
    assert_eq!(out[0].name, "repo");
    assert!(out[0].stars == 5 || out[0].stars == 10);
}

#[test]
fn distinct_identities_all_survive() {
    let input = vec![repo("alice", "a", 1), repo("alice", "b", 2), repo("bob", "a", 3)];
    let out = dedup_repositories(input);
    assert_eq!(out.len(), 3);
}

#[test]
fn rerunning_dedup_on_its_output_changes_nothing() {
    let input = vec![
        repo("alice", "a", 1),
        repo("alice", "a", 2),
        repo("bob", "b", 3),
        repo("alice", "a", 4),
        repo("bob", "b", 5),
    ];
    let once = dedup_repositories(input);
    let first: Vec<(String, String, usize)> =
        once.iter().map(|r| (r.owner.clone(), r.name.clone(), r.stars)).collect();
    let twice = dedup_repositories(once);
    let second: Vec<(String, String, usize)> =
        twice.iter().map(|r| (r.owner.clone(), r.name.clone(), r.stars)).collect();
    assert_eq!(first, second);
    assert!(second.len() <= 5);
}

#[test]
fn records_equal_only_after_sanitization_are_duplicates() {
    // The names differ only in characters that sanitization strips, so the
    // full pipeline step recognizes them as one repository.
    let input = vec![repo("alice", "re'po", 5), repo("alice", "repo", 10)];
    let out = prepare_repositories(input);
    assert_eq!(out.len(), 1);
    assert_eq!(out[0].name, "repo");
}

#[test]
fn prepare_sanitizes_languages_too() {
    let mut a = repo("alice", "x", 1);
    a.languages = vec![
        Language { name: String::from("O'Caml"), size: 3 },
        Language { name: String::from("OCaml"), size: 4 },
    ];
    let out = prepare_repositories(vec![a]);
    assert_eq!(out.len(), 1);
    assert_eq!(out[0].languages.len(), 1);
    assert_eq!(out[0].languages[0].name, "OCaml");
}
