//! Rendering rows into the textual value lists of bulk insert
//! statements: numbers and booleans as literals, present text fields as
//! quoted literals, absent optional fields as the null marker — never as
//! an empty string or zero — and every row carrying the server-side
//! `now()` timestamp.

use vstd::prelude::*;
use vstd::string::StrSliceExecFns;
use vstd::string::StringExecFns;
use crate::rows::AssociationRow;
use crate::rows::RepositoryRow;

verus! {

/// The decimal digit character for `d` (0 to 9).
pub open spec fn dec_digit(d: int) -> char {
    if d == 0 {
        '0'
    } else if d == 1 {
        '1'
    } else if d == 2 {
        '2'
    } else if d == 3 {
        '3'
    } else if d == 4 {
        '4'
    } else if d == 5 {
        '5'
    } else if d == 6 {
        '6'
    } else if d == 7 {
        '7'
    } else if d == 8 {
        '8'
    } else {
        '9'
    }
}

/// The decimal digits of a non-negative number, most significant first.
pub open spec fn dec_rep(n: int) -> Seq<char>
    decreases n,
{
    if n < 10 {
        seq![dec_digit(n)]
    } else {
        dec_rep(n / 10).push(dec_digit(n % 10))
    }
}

/// The decimal digits of a number, with a leading minus sign when it is
/// negative.
pub open spec fn int_rep(n: int) -> Seq<char> {
    if n < 0 {
        seq!['-'] + dec_rep(-n)
    } else {
        dec_rep(n)
    }
}

/// The null marker emitted for an absent optional field.
pub open spec fn null_rep() -> Seq<char> {
    seq!['n', 'u', 'l', 'l']
}

/// A boolean literal.
pub open spec fn bool_rep(b: bool) -> Seq<char> {
    if b {
        seq!['t', 'r', 'u', 'e']
    } else {
        seq!['f', 'a', 'l', 's', 'e']
    }
}

/// The separator between two values of a row, and between two rows.
pub open spec fn sep_rep() -> Seq<char> {
    seq![',', ' ']
}

/// The closing of a row: the `now()` timestamp column and the
/// parenthesis.
pub open spec fn now_close_rep() -> Seq<char> {
    seq![',', ' ', 'n', 'o', 'w', '(', ')', ')']
}

/// A present text value: the text between single quotes.
pub open spec fn quoted_rep(s: Seq<char>) -> Seq<char> {
    seq!['\''] + s + seq!['\'']
}

/// The view of an optional text field.
pub open spec fn opt_view(v: Option<String>) -> Option<Seq<char>> {
    match v {
        Option::Some(s) => Option::Some(s@),
        Option::None => Option::None,
    }
}

/// An optional text value: quoted when present, the null marker when
/// absent.
pub open spec fn opt_str_rep(v: Option<Seq<char>>) -> Seq<char> {
    match v {
        Option::Some(s) => quoted_rep(s),
        Option::None => null_rep(),
    }
}

/// An optional numeric value: decimal digits when present, the null
/// marker when absent.
pub open spec fn opt_usize_rep(v: Option<usize>) -> Seq<char> {
    match v {
        Option::Some(n) => dec_rep(n as int),
        Option::None => null_rep(),
    }
}

fn digit_str(d: usize) -> (r: &'static str)
    requires
        d < 10,
    ensures
        r@ == seq![dec_digit(d as int)],
{
    let r: &'static str = match d {
        0 => "0",
        1 => "1",
        2 => "2",
        3 => "3",
        4 => "4",
        5 => "5",
        6 => "6",
        7 => "7",
        8 => "8",
        _ => "9",
    };
    proof {
        reveal_strlit("0");
        reveal_strlit("1");
        reveal_strlit("2");
        reveal_strlit("3");
        reveal_strlit("4");
        reveal_strlit("5");
        reveal_strlit("6");
        reveal_strlit("7");
        reveal_strlit("8");
        reveal_strlit("9");
        assert(r@ =~= seq![dec_digit(d as int)]);
    }
    r
}

/// Renders a non-negative number as decimal digits.
pub fn usize_to_string(n: usize) -> (r: String)
    ensures
        r@ == dec_rep(n as int),
    decreases n,
{
    if n < 10 {
        digit_str(n).to_owned()
    } else {
        let mut s = usize_to_string(n / 10);
        s.append(digit_str(n % 10));
        proof {
            assert(dec_rep((n / 10) as int).push(dec_digit((n % 10) as int)) =~= dec_rep(
                (n / 10) as int,
            ) + seq![dec_digit((n % 10) as int)]);
        }
        s
    }
}

/// Renders an identifier as decimal digits with a minus sign when
/// negative.
pub fn i32_to_string(n: i32) -> (r: String)
    ensures
        r@ == int_rep(n as int),
{
    if n >= 0 {
        usize_to_string(n as usize)
    } else {
        let mut s = "-".to_owned();
        let magnitude: i64 = -(n as i64);
        let m = usize_to_string(magnitude as usize);
        s.append(m.as_str());
        proof {
            reveal_strlit("-");
            assert(("-")@ =~= seq!['-']);
        }
        s
    }
}

/// Renders an optional text value: the value between single quotes when
/// present, the null marker when absent. The value is interpolated as it
/// stands: sanitization must already have removed every quote.
pub fn optional_str(value: Option<String>) -> (r: String)
    ensures
        r@ == opt_str_rep(opt_view(value)),
{
    match value {
        Some(v) => {
            let mut s = "'".to_owned();
            s.append(v.as_str());
            s.append("'");
            proof {
                reveal_strlit("'");
                assert(("'")@ =~= seq!['\'']);
            }
            s
        },
        None => {
            let s = "null".to_owned();
            proof {
                reveal_strlit("null");
                assert(s@ =~= null_rep());
            }
            s
        },
    }
}

/// Renders an optional numeric value: decimal digits when present, the
/// null marker when absent.
pub fn optional_usize(value: Option<usize>) -> (r: String)
    ensures
        r@ == opt_usize_rep(value),
{
    match value {
        Some(v) => usize_to_string(v),
        None => {
            let s = "null".to_owned();
            proof {
                reveal_strlit("null");
                assert(s@ =~= null_rep());
            }
            s
        },
    }
}

/// One entity row: the quoted name and the timestamp.
pub open spec fn entity_row_rep(name: Seq<char>) -> Seq<char> {
    seq!['('] + seq!['\''] + name + seq!['\''] + now_close_rep()
}

fn entity_row(name: &String) -> (r: String)
    ensures
        r@ == entity_row_rep(name@),
{
    let mut s = "('".to_owned();
    s.append(name.as_str());
    s.append("', now())");
    proof {
        reveal_strlit("('");
        reveal_strlit("', now())");
        assert(("('")@ =~= seq!['('] + seq!['\'']);
        assert(("', now())")@ =~= seq!['\''] + now_close_rep());
        assert(s@ =~= entity_row_rep(name@));
    }
    s
}

/// Comma-separated concatenation, in order.
pub open spec fn joined(items: Seq<Seq<char>>) -> Seq<char>
    decreases items.len(),
{
    if items.len() == 0 {
        Seq::empty()
    } else if items.len() == 1 {
        items[0]
    } else {
        joined(items.drop_last()) + sep_rep() + items.last()
    }
}

pub proof fn lemma_joined_push(items: Seq<Seq<char>>, x: Seq<char>)
    ensures
        joined(items.push(x)) == if items.len() == 0 {
            x
        } else {
            joined(items) + sep_rep() + x
        },
{
    assert(items.push(x).drop_last() =~= items);
    assert(items.push(x).last() == x);
    if items.len() == 0 {
        assert(items.push(x)[0] == x);
    }
}

/// The rendered rows of an entity batch.
pub open spec fn entity_rows_rep(names: Seq<Seq<char>>) -> Seq<Seq<char>> {
    names.map_values(|n: Seq<char>| entity_row_rep(n))
}

/// The value list of one entity bulk insert: one `('name', now())` row
/// per batch value, comma separated.
pub fn entity_values_sql(names: &Vec<String>) -> (r: String)
    ensures
        r@ == joined(entity_rows_rep(crate::entities::strings_view(names@))),
{
    let ghost reps = entity_rows_rep(crate::entities::strings_view(names@));
    let mut s = String::new();
    let mut i: usize = 0;
    while i < names.len()
        invariant
            i <= names@.len(),
            reps == entity_rows_rep(crate::entities::strings_view(names@)),
            reps.len() == names@.len(),
            s@ == joined(reps.subrange(0, i as int)),
        decreases names@.len() - i,
    {
        let row = entity_row(&names[i]);
        proof {
            lemma_joined_push(reps.subrange(0, i as int), reps[i as int]);
            assert(reps.subrange(0, i + 1 as int) =~= reps.subrange(0, i as int).push(
                reps[i as int],
            ));
            assert(row@ == reps[i as int]);
        }
        if i == 0 {
            s = row;
        } else {
            s.append(", ");
            s.append(row.as_str());
            proof {
                reveal_strlit(", ");
                assert((", ")@ =~= sep_rep());
            }
        }
        i = i + 1;
    }
    proof {
        assert(reps.subrange(0, i as int) =~= reps);
    }
    s
}

/// One repository row: the resolved owner identifier, the quoted name,
/// the numeric and boolean fields as literals, the optional fields as
/// quoted text, digits or the null marker, and the timestamp.
pub open spec fn repository_row_rep(row: RepositoryRow) -> Seq<char> {
    seq!['('] + int_rep(row.owner_id as int) + sep_rep() + seq!['\''] + row.name@ + seq!['\'']
        + sep_rep() + dec_rep(row.stars as int) + sep_rep() + bool_rep(row.is_fork) + sep_rep()
        + bool_rep(row.is_archived) + sep_rep() + dec_rep(row.disk_usage_kb as int) + sep_rep()
        + opt_str_rep(opt_view(row.description)) + sep_rep() + opt_str_rep(
        opt_view(row.primary_language),
    ) + sep_rep() + opt_usize_rep(row.default_branch_commit_count) + sep_rep() + opt_str_rep(
        opt_view(row.license),
    ) + now_close_rep()
}

fn bool_sql(b: bool) -> (r: &'static str)
    ensures
        r@ == bool_rep(b),
{
    proof {
        reveal_strlit("true");
        reveal_strlit("false");
        assert(("true")@ =~= seq!['t', 'r', 'u', 'e']);
        assert(("false")@ =~= seq!['f', 'a', 'l', 's', 'e']);
    }
    if b {
        "true"
    } else {
        "false"
    }
}

/// Renders one repository row.
pub fn repository_row_values(row: &RepositoryRow) -> (r: String)
    ensures
        r@ == repository_row_rep(*row),
{
    let mut s = "(".to_owned();
    let owner_id = i32_to_string(row.owner_id);
    s.append(owner_id.as_str());
    s.append(", '");
    s.append(row.name.as_str());
    s.append("'");
    s.append(", ");
    let stars = usize_to_string(row.stars);
    s.append(stars.as_str());
    s.append(", ");
    s.append(bool_sql(row.is_fork));
    s.append(", ");
    s.append(bool_sql(row.is_archived));
    s.append(", ");
    let disk = usize_to_string(row.disk_usage_kb);
    s.append(disk.as_str());
    s.append(", ");
    let description = crate::rows::clone_optional_field(&row.description);
    let desc = optional_str(description);
    s.append(desc.as_str());
    s.append(", ");
    let primary = crate::rows::clone_optional_field(&row.primary_language);
    let prim = optional_str(primary);
    s.append(prim.as_str());
    s.append(", ");
    let commits = optional_usize(row.default_branch_commit_count);
    s.append(commits.as_str());
    s.append(", ");
    let license = crate::rows::clone_optional_field(&row.license);
    let lic = optional_str(license);
    s.append(lic.as_str());
    s.append(", now())");
    proof {
        reveal_strlit("(");
        reveal_strlit(", '");
        reveal_strlit("'");
        reveal_strlit(", ");
        reveal_strlit(", now())");
        assert(("(")@ =~= seq!['(']);
        assert((", '")@ =~= sep_rep() + seq!['\'']);
        assert(("'")@ =~= seq!['\'']);
        assert((", ")@ =~= sep_rep());
        assert((", now())")@ =~= now_close_rep());
        assert(s@ =~= repository_row_rep(*row));
    }
    s
}

/// One association row: the resolved repository and language
/// identifiers, the language byte size, and the timestamp.
pub open spec fn association_row_rep(row: AssociationRow) -> Seq<char> {
    seq!['('] + int_rep(row.repository_id as int) + sep_rep() + int_rep(row.language_id as int)
        + sep_rep() + dec_rep(row.language_size as int) + now_close_rep()
}

/// Renders one association row.
pub fn association_row_values(row: &AssociationRow) -> (r: String)
    ensures
        r@ == association_row_rep(*row),
{
    let mut s = "(".to_owned();
    let rid = i32_to_string(row.repository_id);
    s.append(rid.as_str());
    s.append(", ");
    let lid = i32_to_string(row.language_id);
    s.append(lid.as_str());
    s.append(", ");
    let size = usize_to_string(row.language_size);
    s.append(size.as_str());
    s.append(", now())");
    proof {
        reveal_strlit("(");
        reveal_strlit(", ");
        reveal_strlit(", now())");
        assert(("(")@ =~= seq!['(']);
        assert((", ")@ =~= sep_rep());
        assert((", now())")@ =~= now_close_rep());
        assert(s@ =~= association_row_rep(*row));
    }
    s
}

/// The rendered rows of a repository batch.
pub open spec fn repository_rows_rep(rows: Seq<RepositoryRow>) -> Seq<Seq<char>> {
    rows.map_values(|row: RepositoryRow| repository_row_rep(row))
}

/// The value list of one repository bulk insert.
pub fn repository_values_sql(rows: &Vec<RepositoryRow>) -> (r: String)
    ensures
        r@ == joined(repository_rows_rep(rows@)),
{
    let ghost reps = repository_rows_rep(rows@);
    let mut s = String::new();
    let mut i: usize = 0;
    while i < rows.len()
        invariant
            i <= rows@.len(),
            reps == repository_rows_rep(rows@),
            reps.len() == rows@.len(),
            s@ == joined(reps.subrange(0, i as int)),
        decreases rows@.len() - i,
    {
        let row = repository_row_values(&rows[i]);
        proof {
            lemma_joined_push(reps.subrange(0, i as int), reps[i as int]);
            assert(reps.subrange(0, i + 1 as int) =~= reps.subrange(0, i as int).push(
                reps[i as int],
            ));
            assert(row@ == reps[i as int]);
        }
        if i == 0 {
            s = row;
        } else {
            s.append(", ");
            s.append(row.as_str());
            proof {
                reveal_strlit(", ");
                assert((", ")@ =~= sep_rep());
            }
        }
        i = i + 1;
    }
    proof {
        assert(reps.subrange(0, i as int) =~= reps);
    }
    s
}

/// The rendered rows of an association batch.
pub open spec fn association_rows_rep(rows: Seq<AssociationRow>) -> Seq<Seq<char>> {
    rows.map_values(|row: AssociationRow| association_row_rep(row))
}

/// The value list of one association bulk insert.
pub fn association_values_sql(rows: &Vec<AssociationRow>) -> (r: String)
    ensures
        r@ == joined(association_rows_rep(rows@)),
{
    let ghost reps = association_rows_rep(rows@);
    let mut s = String::new();
    let mut i: usize = 0;
    while i < rows.len()
        invariant
            i <= rows@.len(),
            reps == association_rows_rep(rows@),
            reps.len() == rows@.len(),
            s@ == joined(reps.subrange(0, i as int)),
        decreases rows@.len() - i,
    {
        let row = association_row_values(&rows[i]);
        proof {
            lemma_joined_push(reps.subrange(0, i as int), reps[i as int]);
            assert(reps.subrange(0, i + 1 as int) =~= reps.subrange(0, i as int).push(
                reps[i as int],
            ));
            assert(row@ == reps[i as int]);
        }
        if i == 0 {
            s = row;
        } else {
            s.append(", ");
            s.append(row.as_str());
            proof {
                reveal_strlit(", ");
                assert((", ")@ =~= sep_rep());
            }
        }
        i = i + 1;
    }
    proof {
        assert(reps.subrange(0, i as int) =~= reps);
    }
    s
}

/// The opening of an entity bulk insert, up to the quoted table name.
pub open spec fn entity_head_open_rep() -> Seq<char> {
    "insert into \""@
}

/// The rest of an entity bulk insert's head, after the table name.
pub open spec fn entity_head_close_rep() -> Seq<char> {
    "\" (\"name\", \"updatedAt\") values "@
}

/// A whole entity bulk insert statement.
pub open spec fn entity_insert_rep(entity: Seq<char>, names: Seq<Seq<char>>) -> Seq<char> {
    entity_head_open_rep() + entity + entity_head_close_rep() + joined(entity_rows_rep(names))
}

/// Builds the whole bulk insert statement for one entity batch: the
/// target table carries the entity's name, each row the quoted value and
/// the timestamp.
pub fn entity_insert_statement(entity_name: &String, batch: &Vec<String>) -> (r: String)
    ensures
        r@ == entity_insert_rep(entity_name@, crate::entities::strings_view(batch@)),
{
    let mut s = "insert into \"".to_owned();
    s.append(entity_name.as_str());
    s.append("\" (\"name\", \"updatedAt\") values ");
    let values = entity_values_sql(batch);
    s.append(values.as_str());
    s
}

/// The head of a repository bulk insert statement.
pub open spec fn repository_head_rep() -> Seq<char> {
    "insert into \"Repository\" (\"ownerId\", name, stars, is_fork, is_archived, disk_usage_kb, description, primary_language, default_branch_commit_count, license, \"updatedAt\") values "@
}

/// A whole repository bulk insert statement.
pub open spec fn repository_insert_rep(rows: Seq<RepositoryRow>) -> Seq<char> {
    repository_head_rep() + joined(repository_rows_rep(rows))
}

/// Builds the whole bulk insert statement for one repository batch.
pub fn repository_insert_statement(batch: &Vec<RepositoryRow>) -> (r: String)
    ensures
        r@ == repository_insert_rep(batch@),
{
    let mut s =
        "insert into \"Repository\" (\"ownerId\", name, stars, is_fork, is_archived, disk_usage_kb, description, primary_language, default_branch_commit_count, license, \"updatedAt\") values ".to_owned();
    let values = repository_values_sql(batch);
    s.append(values.as_str());
    s
}

/// The head of an association bulk insert statement.
pub open spec fn association_head_rep() -> Seq<char> {
    "insert into \"LanguagesOnRepositories\" (\"repositoryId\", \"languageId\", \"languageSize\", \"updatedAt\") values "@
}

/// A whole association bulk insert statement.
pub open spec fn association_insert_rep(rows: Seq<AssociationRow>) -> Seq<char> {
    association_head_rep() + joined(association_rows_rep(rows))
}

/// Builds the whole bulk insert statement for one association batch.
pub fn association_insert_statement(batch: &Vec<AssociationRow>) -> (r: String)
    ensures
        r@ == association_insert_rep(batch@),
{
    let mut s =
        "insert into \"LanguagesOnRepositories\" (\"repositoryId\", \"languageId\", \"languageSize\", \"updatedAt\") values ".to_owned();
    let values = association_values_sql(batch);
    s.append(values.as_str());
    s
}

} // verus!
