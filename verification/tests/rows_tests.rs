use github_parser::model::Language;
use github_parser::model::Repository;
use github_parser::resolve::NameResolver;
use github_parser::resolve::RepoResolver;
use github_parser::rows::build_association_rows;
use github_parser::rows::build_repository_rows;
use github_parser::rows::LoadError;

fn repo(owner: &str, name: &str, languages: Vec<Language>) -> Repository {
    Repository {
        owner: String::from(owner),
        name: String::from(name),
        stars: 5,
        is_fork: false,
        is_archived: true,
        languages,
        disk_usage_kb: 11,
        description: None,
        primary_language: None,
        default_branch_commit_count: Some(3),
        license: None,
    }
}

#[test]
fn repository_rows_carry_the_resolved_owner_id() {
    let repos = vec![repo("alice", "a", vec![]), repo("bob", "b", vec![])];
    let users = NameResolver::from_rows(vec![
        (String::from("alice"), 1),
        (String::from("bob"), 2),
    ]);
    let rows = build_repository_rows(&repos, &users).unwrap();
    assert_eq!(rows.len(), 2);
    assert_eq!(rows[0].owner_id, 1);
    assert_eq!(rows[1].owner_id, 2);
    assert_eq!(rows[0].name, "a");
    assert_eq!(rows[0].stars, 5);
    assert_eq!(rows[0].default_branch_commit_count, Some(3));
}

#[test]
fn a_missing_owner_is_fatal() {
    let repos = vec![repo("alice", "a", vec![])];
    let users = NameResolver::from_rows(vec![(String::from("bob"), 2)]);
    assert_eq!(build_repository_rows(&repos, &users), Err(LoadError::MissingOwner));
}

#[test]
fn association_rows_resolve_both_sides() {
    let repos = vec![repo(
        "alice",
        "a",
        vec![
            Language { name: String::from("Rust"), size: 100 },
            Language { name: String::from("OCaml"), size: 50 },
        ],
    )];
    let repo_ids = RepoResolver::from_rows(vec![(String::from("a"), String::from("alice"), 7)]);
    let lang_ids = NameResolver::from_rows(vec![
        (String::from("Rust"), 1),
        (String::from("OCaml"), 2),
    ]);
    let rows = build_association_rows(&repos, &repo_ids, &lang_ids).unwrap();
    assert_eq!(rows.len(), 2);
    assert_eq!(rows[0].repository_id, 7);
    assert_eq!(rows[0].language_id, 1);
    assert_eq!(rows[0].language_size, 100);
    assert_eq!(rows[1].repository_id, 7);
    assert_eq!(rows[1].language_id, 2);
    assert_eq!(rows[1].language_size, 50);
}

#[test]
fn a_missing_repository_key_is_fatal() {
    let repos = vec![repo("alice", "a", vec![])];
    let repo_ids = RepoResolver::from_rows(vec![]);
    let lang_ids = NameResolver::from_rows(vec![]);
    assert_eq!(
        build_association_rows(&repos, &repo_ids, &lang_ids),
        Err(LoadError::MissingRepository)
    );
}

#[test]
fn a_missing_language_key_is_fatal() {
    let repos = vec![repo("alice", "a", vec![Language { name: String::from("Rust"), size: 1 }])];
    let repo_ids = RepoResolver::from_rows(vec![(String::from("a"), String::from("alice"), 7)]);
    let lang_ids = NameResolver::from_rows(vec![]);
    assert_eq!(
        build_association_rows(&repos, &repo_ids, &lang_ids),
        Err(LoadError::MissingLanguage)
    );
}

#[test]
fn every_association_id_comes_from_the_resolvers() {
    // Foreign-key completeness over a small pipeline run: every association
    // row's repository and language identifiers are values the resolvers
    // assigned, so each resolves to a persisted row.
    let repos = vec![
        repo("alice", "a", vec![Language { name: String::from("Rust"), size: 1 }]),
        repo("bob", "b", vec![Language { name: String::from("Go"), size: 2 }]),
    ];
    let repo_ids = RepoResolver::from_rows(vec![
        (String::from("a"), String::from("alice"), 10),
        (String::from("b"), String::from("bob"), 11),
    ]);
    let lang_ids = NameResolver::from_rows(vec![
        (String::from("Rust"), 20),
        (String::from("Go"), 21),
    ]);
    let repo_values = [10, 11];
    let lang_values = [20, 21];
    let rows = build_association_rows(&repos, &repo_ids, &lang_ids).unwrap();
    assert_eq!(rows.len(), 2);
    for row in &rows {
        assert!(repo_values.contains(&row.repository_id));
        assert!(lang_values.contains(&row.language_id));
    }
}
