use github_parser::resolve::NameResolver;
use github_parser::resolve::RepoResolver;

#[test]
fn name_lookup_finds_a_stored_key() {
    let r = NameResolver::from_rows(vec![
        (String::from("Rust"), 1),
        (String::from("OCaml"), 2),
    ]);
    assert_eq!(r.lookup(&String::from("Rust")), Some(1));
    assert_eq!(r.lookup(&String::from("OCaml")), Some(2));
}

#[test]
fn name_lookup_misses_an_absent_key() {
    let r = NameResolver::from_rows(vec![(String::from("Rust"), 1)]);
    assert_eq!(r.lookup(&String::from("Go")), None);
}

#[test]
fn name_lookup_takes_the_earliest_row_for_a_repeated_key() {
    let r = NameResolver::from_rows(vec![
        (String::from("Rust"), 1),
        (String::from("Rust"), 9),
    ]);
    assert_eq!(r.lookup(&String::from("Rust")), Some(1));
}

#[test]
fn repo_lookup_keys_on_the_name_owner_pair() {
    let r = RepoResolver::from_rows(vec![
        (String::from("repo"), String::from("alice"), 7),
        (String::from("repo"), String::from("bob"), 8),
    ]);
    assert_eq!(r.lookup(&String::from("repo"), &String::from("alice")), Some(7));
    assert_eq!(r.lookup(&String::from("repo"), &String::from("bob")), Some(8));
    assert_eq!(r.lookup(&String::from("other"), &String::from("alice")), None);
}
