use github_parser::entities::distinct_language_names;
use github_parser::entities::distinct_owner_names;
use github_parser::model::Language;
use github_parser::model::Repository;
use github_parser::render::association_insert_statement;
use github_parser::render::association_values_sql;
use github_parser::render::entity_insert_statement;
use github_parser::render::entity_values_sql;
use github_parser::render::repository_insert_statement;
use github_parser::render::i32_to_string;
use github_parser::render::optional_str;
use github_parser::render::optional_usize;
use github_parser::render::repository_values_sql;
use github_parser::render::usize_to_string;
use github_parser::rows::AssociationRow;
use github_parser::rows::RepositoryRow;

#[test]
fn numbers_render_as_decimal_digits() {
    assert_eq!(usize_to_string(0), "0");
    assert_eq!(usize_to_string(7), "7");
    assert_eq!(usize_to_string(1234567890), "1234567890");
    assert_eq!(i32_to_string(2147483647), "2147483647");
    assert_eq!(i32_to_string(-42), "-42");
    assert_eq!(i32_to_string(-2147483648), "-2147483648");
}

#[test]
fn present_text_is_quoted() {
    assert_eq!(optional_str(Some(String::from("MIT"))), "'MIT'");
}

#[test]
fn absent_text_is_the_null_marker_not_a_string() {
    // Never the empty string, and the marker carries no quotes.
    assert_eq!(optional_str(None), "null");
    assert_ne!(optional_str(None), "'null'");
    assert_ne!(optional_str(None), "");
}

#[test]
fn optional_numbers_render_or_are_null() {
    assert_eq!(optional_usize(Some(42)), "42");
    assert_eq!(optional_usize(None), "null");
}

#[test]
fn entity_value_lists_quote_each_name_and_add_the_timestamp() {
    let names = vec![String::from("alice"), String::from("bob")];
    assert_eq!(entity_values_sql(&names), "('alice', now()), ('bob', now())");
}

#[test]
fn a_repository_row_with_absent_description_renders_null() {
    let row = RepositoryRow {
        owner_id: 3,
        name: String::from("repo"),
        stars: 5,
        is_fork: false,
        is_archived: true,
        disk_usage_kb: 11,
        description: None,
        primary_language: Some(String::from("Rust")),
        default_branch_commit_count: None,
        license: Some(String::from("MIT")),
    };
    assert_eq!(
        repository_values_sql(&vec![row]),
        "(3, 'repo', 5, false, true, 11, null, 'Rust', null, 'MIT', now())"
    );
}

#[test]
fn association_rows_render_ids_and_size() {
    let rows = vec![
        AssociationRow { repository_id: 7, language_id: 1, language_size: 100 },
        AssociationRow { repository_id: 7, language_id: 2, language_size: 50 },
    ];
    assert_eq!(
        association_values_sql(&rows),
        "(7, 1, 100, now()), (7, 2, 50, now())"
    );
}

#[test]
fn the_entity_statement_names_the_table_and_columns() {
    let names = vec![String::from("alice")];
    assert_eq!(
        entity_insert_statement(&String::from("User"), &names),
        "insert into \"User\" (\"name\", \"updatedAt\") values ('alice', now())"
    );
}

#[test]
fn the_repository_statement_carries_every_column() {
    let row = RepositoryRow {
        owner_id: 1,
        name: String::from("r"),
        stars: 2,
        is_fork: true,
        is_archived: false,
        disk_usage_kb: 3,
        description: Some(String::from("d")),
        primary_language: None,
        default_branch_commit_count: Some(4),
        license: None,
    };
    assert_eq!(
        repository_insert_statement(&vec![row]),
        "insert into \"Repository\" (\"ownerId\", name, stars, is_fork, is_archived, disk_usage_kb, description, primary_language, default_branch_commit_count, license, \"updatedAt\") values (1, 'r', 2, true, false, 3, 'd', null, 4, null, now())"
    );
}

#[test]
fn the_association_statement_carries_every_column() {
    let rows = vec![AssociationRow { repository_id: 7, language_id: 1, language_size: 9 }];
    assert_eq!(
        association_insert_statement(&rows),
        "insert into \"LanguagesOnRepositories\" (\"repositoryId\", \"languageId\", \"languageSize\", \"updatedAt\") values (7, 1, 9, now())"
    );
}

fn repo(owner: &str, languages: Vec<Language>) -> Repository {
    Repository {
        owner: String::from(owner),
        name: String::from("n"),
        stars: 0,
        is_fork: false,
        is_archived: false,
        languages,
        disk_usage_kb: 0,
        description: None,
        primary_language: None,
        default_branch_commit_count: None,
        license: None,
    }
}

#[test]
fn distinct_owner_names_drop_duplicates_and_keep_order() {
    let repos = vec![repo("alice", vec![]), repo("bob", vec![]), repo("alice", vec![])];
    let names = distinct_owner_names(&repos);
    assert_eq!(names, vec![String::from("alice"), String::from("bob")]);
}

#[test]
fn distinct_language_names_cross_record_boundaries() {
    let repos = vec![
        repo("a", vec![
            Language { name: String::from("Rust"), size: 1 },
            Language { name: String::from("Go"), size: 2 },
        ]),
        repo("b", vec![Language { name: String::from("Rust"), size: 3 }]),
    ];
    let names = distinct_language_names(&repos);
    assert_eq!(names, vec![String::from("Rust"), String::from("Go")]);
}
