use toolflow::data_cell::DataCell;
use toolflow::data_header::{ColumnHeader, ColumnHeaderType, DataHeader};
use toolflow::filter::{Filter, FilterOperator, FilterPetScan, FilterSort};
use toolflow::join::Join;
use toolflow::table::{FlowError, Table};
use toolflow::wiki_page::WikiPage;

fn text_header(names: &[&str]) -> DataHeader {
    DataHeader {
        columns: names
            .iter()
            .map(|n| ColumnHeader {
                name: n.to_string(),
                kind: ColumnHeaderType::PlainText,
            })
            .collect(),
    }
}

fn text_row(cells: &[&str]) -> Vec<DataCell> {
    cells.iter().map(|c| DataCell::PlainText(c.to_string())).collect()
}

fn page_row(wiki: &str, prefixed: &str, ns: i64) -> Vec<DataCell> {
    let mut wp = WikiPage::default();
    wp.wiki = Some(wiki.to_string());
    wp.prefixed_title = Some(prefixed.to_string());
    wp.ns_id = Some(ns);
    vec![DataCell::WikiPage(wp)]
}

fn wiki_page_table(rows: Vec<Vec<DataCell>>) -> Table {
    Table {
        header: DataHeader {
            columns: vec![ColumnHeader {
                name: "wiki_page".to_string(),
                kind: ColumnHeaderType::WikiPage(WikiPage::default()),
            }],
        },
        rows,
    }
}

#[test]
fn test_filter_operator_deserialization() {
    let operator = FilterOperator::from_json_str("\"Equal\"").unwrap();
    assert_eq!(operator, FilterOperator::Equal);
    assert!(FilterOperator::from_json_str("\"NoSuchOperator\"").is_none());
}

#[test]
fn test_filter_wikipage_via_prefixed_title() {
    let mut rows = Vec::new();
    rows.push(page_row("dewiki", "AGEB", 0));
    rows.push(page_row("dewiki", "Kategorie:AGEB", 14));
    rows.push(page_row("dewiki", "AGEB", 0));
    rows.push(page_row("dewiki", "Other", 0));
    let table = wiki_page_table(rows);
    let filter = Filter {
        key: "wiki_page".to_string(),
        subkey: Some("prefixed_title".to_string()),
        operator: FilterOperator::Equal,
        value: "AGEB".to_string(),
        remove_matching: false,
    };
    let out = filter.process(&table).unwrap();
    assert!(out.rows.len() == 2);
}

#[test]
fn test_filter_wikipage_via_namespace_id() {
    // A wiki-page column whose rows split 500 / 1249 on the namespace.
    let mut rows = Vec::new();
    for i in 0..1749 {
        let ns = if i % 3 == 0 && i < 1500 { 14 } else { 0 };
        rows.push(page_row("dewiki", &format!("P{}", i), ns));
    }
    let kept: usize = rows
        .iter()
        .filter(|r| matches!(&r[0], DataCell::WikiPage(wp) if wp.ns_id == Some(14)))
        .count();
    assert_eq!(kept, 500);
    let table = wiki_page_table(rows);
    let mut filter = Filter {
        key: "wiki_page".to_string(),
        subkey: Some("ns_id".to_string()),
        operator: FilterOperator::Unequal,
        value: "0".to_string(),
        remove_matching: false,
    };
    let df_keep = filter.process(&table).unwrap();
    filter.remove_matching = true;
    let df_remove = filter.process(&table).unwrap();
    assert_eq!(df_keep.rows.len(), 500);
    assert_eq!(df_remove.rows.len(), 1249);
}

#[test]
fn filter_duality_partitions_rows() {
    let header = text_header(&["name"]);
    let rows: Vec<Vec<DataCell>> =
        ["a", "bb", "c", "dd", "e"].iter().map(|s| text_row(&[s])).collect();
    let table = Table { header, rows };
    let mut filter = Filter {
        key: "name".to_string(),
        subkey: None,
        operator: FilterOperator::Regexp,
        value: "^.$".to_string(),
        remove_matching: false,
    };
    let kept = filter.process(&table).unwrap();
    filter.remove_matching = true;
    let removed = filter.process(&table).unwrap();
    assert_eq!(kept.rows.len(), 3);
    assert_eq!(removed.rows.len(), 2);
    assert_eq!(kept.rows.len() + removed.rows.len(), table.rows.len());
    for row in &kept.rows {
        for other in &removed.rows {
            assert!(row[0].as_key() != other[0].as_key());
        }
    }
}

#[test]
fn filter_regexp_rejects_bad_pattern() {
    let table = Table {
        header: text_header(&["name"]),
        rows: vec![text_row(&["a"])],
    };
    let filter = Filter {
        key: "name".to_string(),
        subkey: None,
        operator: FilterOperator::Regexp,
        value: "(".to_string(),
        remove_matching: false,
    };
    assert!(matches!(filter.process(&table), Err(FlowError::InvalidRegex)));
}

#[test]
fn filter_missing_key_column() {
    let table = Table {
        header: text_header(&["name"]),
        rows: vec![],
    };
    let filter = Filter {
        key: "other".to_string(),
        subkey: None,
        operator: FilterOperator::Equal,
        value: "x".to_string(),
        remove_matching: false,
    };
    assert!(matches!(
        filter.process(&table),
        Err(FlowError::MissingKeyColumn(_))
    ));
}

#[test]
fn test_filter_sort() {
    let header = text_header(&["wikidata_item"]);
    let rows: Vec<Vec<DataCell>> = ["Q5", "Q1", "Q3", "Q2", "Q4"]
        .iter()
        .map(|s| text_row(&[s]))
        .collect();
    let table = Table { header, rows };
    let sorter = FilterSort {
        key: "wikidata_item".to_string(),
        reverse: false,
    };
    let out = sorter.process(&table).unwrap();
    assert_eq!(out.rows.len(), 5);
    assert_eq!(out.rows[0][0].as_key(), "Q1");
    let sorter = FilterSort {
        key: "wikidata_item".to_string(),
        reverse: true,
    };
    let out = sorter.process(&table).unwrap();
    assert_eq!(out.rows[0][0].as_key(), "Q5");
}

#[test]
fn sorting_twice_is_sorting_once() {
    let header = text_header(&["k", "v"]);
    let rows: Vec<Vec<DataCell>> = [
        ("10", "a"),
        ("2", "b"),
        ("2", "c"),
        ("1", "d"),
    ]
    .iter()
    .map(|(k, v)| text_row(&[k, v]))
    .collect();
    let table = Table { header, rows };
    let sorter = FilterSort {
        key: "k".to_string(),
        reverse: false,
    };
    let once = sorter.process(&table).unwrap();
    let twice = sorter.process(&once).unwrap();
    // String keys sort lexicographically: "10" comes before "2".
    assert_eq!(once.rows[0][0].as_key(), "1");
    assert_eq!(once.rows[1][0].as_key(), "10");
    // Stability keeps the tied rows "b" before "c".
    assert_eq!(once.rows[2][1].as_key(), "b");
    assert_eq!(once.rows[3][1].as_key(), "c");
    assert_eq!(once.rows.len(), twice.rows.len());
    for (a, b) in once.rows.iter().zip(twice.rows.iter()) {
        assert_eq!(a[0].as_key(), b[0].as_key());
        assert_eq!(a[1].as_key(), b[1].as_key());
    }
}

#[test]
fn inner_join_on_key_counts() {
    // Base file keyed {a,b,c,d}; second file keyed {b,c,e}.
    let f1 = Table {
        header: text_header(&["k", "x"]),
        rows: vec![
            text_row(&["a", "x1"]),
            text_row(&["b", "x2"]),
            text_row(&["c", "x3"]),
            text_row(&["d", "x4"]),
        ],
    };
    let f2 = Table {
        header: text_header(&["k", "y"]),
        rows: vec![
            text_row(&["b", "y1"]),
            text_row(&["c", "y2"]),
            text_row(&["e", "y3"]),
        ],
    };
    let out = Join::default().inner_join_on_key(&vec![f1, f2], "k").unwrap();
    assert_eq!(out.rows.len(), 2);
    // The joined header is the base header plus the other header without
    // its key column.
    let names: Vec<String> = out.header.columns.iter().map(|c| c.name.clone()).collect();
    assert_eq!(names, vec!["k", "x", "y"]);
    let keys: Vec<String> = out.rows.iter().map(|r| r[0].as_key()).collect();
    assert_eq!(keys, vec!["b", "c"]);
    assert_eq!(out.rows[0][2].as_key(), "y1");
}

#[test]
fn inner_join_duplicate_key() {
    let f1 = Table {
        header: text_header(&["k"]),
        rows: vec![text_row(&["x"]), text_row(&["x"])],
    };
    let f2 = Table {
        header: text_header(&["k"]),
        rows: vec![text_row(&["x"])],
    };
    match Join::default().inner_join_on_key(&vec![f1, f2], "k") {
        Err(FlowError::DuplicateKey(k)) => assert_eq!(k, "x"),
        other => panic!("expected a duplicate-key failure, got {:?}", other),
    }
}

#[test]
fn join_arity_errors() {
    let join = Join::default();
    assert!(matches!(
        join.inner_join_on_key(&vec![], "k"),
        Err(FlowError::NoInputs)
    ));
    let one = Table {
        header: text_header(&["k"]),
        rows: vec![],
    };
    assert!(matches!(
        join.inner_join_on_key(&vec![one], "k"),
        Err(FlowError::SingleInput)
    ));
}

#[test]
fn merge_unique_unions_by_key() {
    let f1 = Table {
        header: text_header(&["k", "v"]),
        rows: vec![text_row(&["a", "1"]), text_row(&["b", "2"])],
    };
    let f2 = Table {
        header: text_header(&["k", "v"]),
        rows: vec![text_row(&["b", "3"]), text_row(&["c", "4"])],
    };
    let out = Join::default().merge_unique(&vec![f1, f2], "k").unwrap();
    let keys: Vec<String> = out.rows.iter().map(|r| r[0].as_key()).collect();
    assert_eq!(keys, vec!["a", "b", "c"]);
    // The first occurrence of a key wins.
    assert_eq!(out.rows[1][1].as_key(), "2");
}

#[test]
fn merge_unique_rejects_schema_mismatch() {
    let f1 = Table {
        header: text_header(&["k"]),
        rows: vec![],
    };
    let f2 = Table {
        header: text_header(&["other"]),
        rows: vec![],
    };
    assert!(matches!(
        Join::default().merge_unique(&vec![f1, f2], "k"),
        Err(FlowError::SchemaMismatch)
    ));
}

#[test]
fn test_filter_petscan() {
    let mut rows = Vec::new();
    rows.push(page_row("dewiki", "Keep_me", 0));
    rows.push(page_row("dewiki", "Drop_me", 0));
    rows.push(page_row("dewiki", "Also_keep", 0));
    let mut col_default = WikiPage::default();
    col_default.wiki = Some("dewiki".to_string());
    let table = Table {
        header: DataHeader {
            columns: vec![ColumnHeader {
                name: "wiki_page".to_string(),
                kind: ColumnHeaderType::WikiPage(col_default),
            }],
        },
        rows,
    };
    let filter = FilterPetScan {
        key: "wiki_page".to_string(),
        psid: 26256139,
    };
    let (pages, wiki) = filter.pages_to_check(&table).unwrap();
    assert_eq!(pages, vec!["Keep_me", "Drop_me", "Also_keep"]);
    assert_eq!(wiki, "dewiki");
    // What the classifier returned decides which rows stay.
    let returned = vec!["Keep_me".to_string(), "Also_keep".to_string()];
    let out = filter.keep_returned(&table, &returned).unwrap();
    assert_eq!(out.rows.len(), 2);
}
