use urlharvest::db_util::MetaCtx;
use urlharvest::mem_store::MemStorage;
use urlharvest::meta_util::{clean_title, update_meta};
use urlharvest::str_util::{
    esc_et_lt_gt, esc_quot, sort_dedup_br, sql_search, ws_collapse, CollapseWhiteSpace, EscEtLtGt,
    EscQuot, SortDedupBr, StringSqlSearch,
};
use urlharvest::writer::db_last_change;

#[test]
fn escapes_amp_lt_gt() {
    assert_eq!(esc_et_lt_gt("a<b>&c"), "a&lt;b&gt;&amp;c");
    assert_eq!(esc_et_lt_gt(""), "");
    assert_eq!(esc_et_lt_gt("plain"), "plain");
    assert_eq!("x&y".to_string().esc_et_lt_gt(), "x&amp;y");
}

#[test]
fn escapes_quotes() {
    assert_eq!(esc_quot(r#"say "hi""#), "say &quot;hi&quot;");
    assert_eq!(r#"""#.to_string().esc_quot(), "&quot;");
    assert_eq!(esc_quot("none"), "none");
}

#[test]
fn collapses_whitespace_runs() {
    assert_eq!(ws_collapse("  a  b\t\tc  "), "a b c");
    assert_eq!(ws_collapse(""), "");
    assert_eq!(ws_collapse("   \t "), "");
    assert_eq!(ws_collapse("one"), "one");
    assert_eq!("a \n b".to_string().ws_collapse(), "a b");
}

#[test]
fn sql_search_pattern() {
    assert_eq!(sql_search("AbC"), "%abc%");
    assert_eq!(sql_search("a*b?c"), "%a%b_c%");
    assert_eq!(sql_search(""), "%%");
    assert_eq!("Rust*".to_string().sql_search(), "%rust%%");
}

#[test]
fn short_title_is_only_collapsed() {
    assert_eq!(clean_title("  A   nice\ttitle "), "A nice title");
}

#[test]
fn long_title_is_cut_with_ellipsis() {
    let long = "x".repeat(500);
    let cleaned = clean_title(&long);
    assert_eq!(cleaned.chars().count(), 395);
    assert!(cleaned.ends_with("..."));
    assert!(cleaned.starts_with("xxx"));

    let exact = "y".repeat(400);
    assert_eq!(clean_title(&exact), exact);
}

#[test]
fn update_meta_stores_cleaned_row_and_marks_change() {
    let mut db = MemStorage::new();
    let r = update_meta(&mut db, 7, "en", "  A   title  ", "words", true, 99);
    assert_eq!(r.unwrap(), 1);
    assert_eq!(db_last_change(&db), 99);
    let rows = db.meta_records();
    assert_eq!(rows.len(), 1);
    assert_eq!(
        rows[0],
        MetaCtx {
            url_id: 7,
            lang: "en".to_string(),
            title: "A title".to_string(),
            descr: "words".to_string(),
        }
    );
}

#[test]
fn sort_dedup_br_sorts_and_deduplicates() {
    assert_eq!(sort_dedup_br("pear apple pear banana apple"), "apple<br>banana<br>pear");
    assert_eq!(sort_dedup_br(""), "");
    assert_eq!(sort_dedup_br("   "), "");
    assert_eq!(sort_dedup_br("one"), "one");
    assert_eq!(sort_dedup_br("b a B"), "B<br>a<br>b");
    assert_eq!("#z #a #a".to_string().sort_dedup_br(), "#a<br>#z");
}

#[test]
fn whitespace_collapse_covers_unicode_spaces() {
    assert_eq!(ws_collapse("a\u{a0}b\u{2003}c"), "a b c");
    assert_eq!(ws_collapse("\u{3000}padded\u{3000}"), "padded");
}
