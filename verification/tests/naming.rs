use memista::naming::{encode, snapshot_file, table_name};
use memista::sql::{
    create_table_statement, drop_table_statement, insert_row_statement, select_row_statement,
};

const DOCS: &str = "chunks_00006400006f000063000073";

#[test]
fn encode_writes_six_digits_for_each_character() {
    assert_eq!(encode(""), "");
    assert_eq!(encode("a"), "000061");
    assert_eq!(encode("docs"), "00006400006f000063000073");
    assert_eq!(encode("A-b"), "00004100002d000062");
    assert_eq!(encode("\u{0}"), "000000");
    assert_eq!(encode("\u{e9}"), "0000e9");
    assert_eq!(encode("\u{ffff}"), "00ffff");
    assert_eq!(encode("\u{1f600}"), "01f600");
    assert_eq!(encode("\u{10ffff}"), "10ffff");
}

#[test]
fn encode_yields_digits_and_lower_case_letters_only() {
    for id in ["docs", "Docs", "my-docs", "docs --x", "a/../b", "\"x\"; DROP", "caf\u{e9}", "\u{10ffff}"] {
        let name = encode(id);
        assert_eq!(name.len(), 6 * id.chars().count());
        assert!(name.chars().all(|c| c.is_ascii_digit() || ('a'..='f').contains(&c)));
    }
}

#[test]
fn table_name_prefixes_the_encoded_id() {
    assert_eq!(table_name("docs"), DOCS);
    assert_eq!(table_name(""), "chunks_");
    assert_eq!(table_name("a_7"), "chunks_00006100005f000037");
}

#[test]
fn snapshot_file_suffixes_the_encoded_id() {
    assert_eq!(snapshot_file("docs"), "00006400006f000063000073.usearch");
    assert_eq!(snapshot_file(""), ".usearch");
    assert_eq!(snapshot_file("a/b"), "00006100002f000062.usearch");
}

#[test]
fn distinct_collections_get_distinct_names() {
    let ids = ["a", "b", "ab", "A", "a.usearch", "chunks_a", "", "a b", "a--", "aa", "\u{61}\u{0}"];
    for (i, a) in ids.iter().enumerate() {
        for (j, b) in ids.iter().enumerate() {
            assert_eq!(i == j, table_name(a) == table_name(b));
            assert_eq!(i == j, snapshot_file(a) == snapshot_file(b));
            assert_eq!(
                i == j,
                table_name(a).to_lowercase() == table_name(b).to_lowercase()
            );
        }
    }
}

#[test]
fn statement_for_an_id_with_a_comment_in_it_names_no_other_table() {
    let statement = drop_table_statement("docs --x");
    assert_eq!(
        statement,
        "DROP TABLE IF EXISTS chunks_00006400006f00006300007300002000002d00002d000078"
    );
    assert_ne!(statement, drop_table_statement("docs"));
    assert!(!statement.contains("--"));
    assert!(!statement.contains("docs"));
}

#[test]
fn create_table_statement_names_the_three_columns() {
    assert_eq!(
        create_table_statement("docs"),
        format!(
            "CREATE TABLE IF NOT EXISTS {} (chunk_id INTEGER PRIMARY KEY AUTOINCREMENT, text TEXT, metadata TEXT)",
            DOCS
        )
    );
}

#[test]
fn insert_statement_without_id_lets_the_table_assign_it() {
    assert_eq!(
        insert_row_statement("docs", false),
        format!("INSERT INTO {} (text, metadata) VALUES (?, ?) RETURNING chunk_id", DOCS)
    );
}

#[test]
fn insert_statement_with_id_replaces_on_conflict() {
    assert_eq!(
        insert_row_statement("docs", true),
        format!(
            "INSERT OR REPLACE INTO {} (chunk_id, text, metadata) VALUES (?, ?, ?) RETURNING chunk_id",
            DOCS
        )
    );
}

#[test]
fn select_statement_reads_one_row_by_id() {
    assert_eq!(
        select_row_statement("docs"),
        format!("SELECT text, metadata FROM {} WHERE chunk_id = ?", DOCS)
    );
}

#[test]
fn drop_statement_tolerates_a_missing_table() {
    assert_eq!(drop_table_statement("docs"), format!("DROP TABLE IF EXISTS {}", DOCS));
}
