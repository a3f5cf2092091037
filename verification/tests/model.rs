use toolflow::data_cell::{entity_from_url, DataCell, SourceValue};
use toolflow::data_header::{ColumnHeader, ColumnHeaderType};
use toolflow::decimal::CellOrd;
use toolflow::site::{NamespaceEntry, SiteNamespaces, SiteTable};
use toolflow::wiki_page::WikiPage;

fn dewiki_table() -> SiteTable {
    SiteTable {
        sites: vec![SiteNamespaces {
            wiki: "dewiki".to_string(),
            namespaces: vec![
                NamespaceEntry {
                    id: 0,
                    local_name: "".to_string(),
                    canonical_name: "".to_string(),
                },
                NamespaceEntry {
                    id: 14,
                    local_name: "Kategorie".to_string(),
                    canonical_name: "Category".to_string(),
                },
            ],
        }],
    }
}

fn commons_table() -> SiteTable {
    SiteTable {
        sites: vec![SiteNamespaces {
            wiki: "commonswiki".to_string(),
            namespaces: vec![NamespaceEntry {
                id: 14,
                local_name: "Category".to_string(),
                canonical_name: "Category".to_string(),
            }],
        }],
    }
}

#[test]
fn test_new_wikidata_item() {
    let item = WikiPage::new_wikidata_item();
    assert_eq!(item.wiki, Some("wikidatawiki".to_string()));
    assert_eq!(item.ns_id, Some(0));
}

#[test]
fn test_new_commons_category() {
    let item = WikiPage::new_commons_category();
    assert_eq!(item.wiki, Some("commonswiki".to_string()));
    assert_eq!(item.ns_prefix, Some("Category".to_string()));
    assert_eq!(item.ns_id, Some(14));
}

#[test]
fn test_fill_missing_generate_prefixed_title() {
    // Main namespace
    let mut wp = WikiPage::default();
    wp.wiki = Some("wikidatawiki".to_string());
    wp.title = Some("Q12345".to_string());
    wp.ns_id = Some(0);
    wp.fill_missing(&SiteTable::new());
    assert_eq!(wp.prefixed_title, Some("Q12345".to_string()));

    // Category namespace
    let mut wp = WikiPage::default();
    wp.wiki = Some("commonswiki".to_string());
    wp.title = Some("Foobar".to_string());
    wp.ns_id = Some(14);
    wp.fill_missing(&commons_table());
    assert_eq!(wp.prefixed_title, Some("Category:Foobar".to_string()));
}

#[test]
fn test_fill_missing_generate_namespace_id() {
    // Main namespace
    let mut wp = WikiPage::default();
    wp.wiki = Some("dewiki".to_string());
    wp.prefixed_title = Some("AGEB".to_string());
    wp.fill_missing(&dewiki_table());
    assert_eq!(wp.ns_id, Some(0));
    assert_eq!(wp.title, Some("AGEB".to_string()));

    // Main namespace but with colon
    let mut wp = WikiPage::default();
    wp.wiki = Some("dewiki".to_string());
    wp.prefixed_title = Some("Station_’70:_Call_in_Question_/_Live_Independence ".to_string());
    wp.fill_missing(&dewiki_table());
    assert_eq!(wp.ns_id, Some(0));

    // Local namespace
    let mut wp = WikiPage::default();
    wp.wiki = Some("dewiki".to_string());
    wp.prefixed_title = Some("Kategorie:AGEB".to_string());
    wp.fill_missing(&dewiki_table());
    assert_eq!(wp.ns_id, Some(14));
    assert_eq!(wp.ns_prefix, Some("Kategorie".to_string()));
    assert_eq!(wp.title, Some("AGEB".to_string()));

    // Canonical namespace
    let mut wp = WikiPage::default();
    wp.wiki = Some("dewiki".to_string());
    wp.prefixed_title = Some("Category:AGEB".to_string());
    wp.fill_missing(&dewiki_table());
    assert_eq!(wp.ns_id, Some(14));
}

#[test]
fn namespace_lookup_is_case_insensitive() {
    // The lookup lower-cases both sides, so an all-caps prefix still
    // resolves; this fails if lower-casing were the identity.
    let mut wp = WikiPage::default();
    wp.wiki = Some("dewiki".to_string());
    wp.prefixed_title = Some("KATEGORIE:AGEB".to_string());
    wp.fill_missing(&dewiki_table());
    assert_eq!(wp.ns_id, Some(14));
}

#[test]
fn entity_url_item_and_property() {
    let (ns, title) = entity_from_url("https://www.wikidata.org/entity/Q42").unwrap();
    assert_eq!(ns, 0);
    assert_eq!(title, "Q42");
    let (ns, title) = entity_from_url("https://www.wikidata.org/entity/P31").unwrap();
    assert_eq!(ns, 120);
    assert_eq!(title, "P31");
    assert!(entity_from_url("https://www.wikidata.org/entity/X1").is_none());
    assert!(entity_from_url("https://example.org/entity/Q42").is_none());
}

#[test]
fn entity_url_fills_cell() {
    let header = ColumnHeader {
        name: "wikidata_item".to_string(),
        kind: ColumnHeaderType::WikiPage(WikiPage::new_wikidata_item()),
    };
    let v = SourceValue::Text("https://www.wikidata.org/entity/Q42".to_string());
    let cell = DataCell::from_value(&v, &header, "entity_url", &SiteTable::new()).unwrap();
    match cell {
        DataCell::WikiPage(wp) => {
            assert_eq!(wp.ns_id, Some(0));
            assert_eq!(wp.title, Some("Q42".to_string()));
            assert_eq!(wp.prefixed_title, Some("Q42".to_string()));
        }
        other => panic!("expected a wiki page cell, got {:?}", other),
    }
}

#[test]
fn cell_keys_and_comparison() {
    let mut wp = WikiPage::new_wikidata_item();
    wp.prefixed_title = Some("Q42".to_string());
    assert_eq!(DataCell::WikiPage(wp).as_key(), "wikidatawiki::Q42");
    assert_eq!(DataCell::Int(-7).as_key(), "-7");
    assert_eq!(DataCell::Float("2.50".to_string()).as_key(), "2.50");
    assert_eq!(DataCell::Blank.as_key(), "");

    // Numbers compare by exact value, across kinds.
    let a = DataCell::Float("1.5".to_string());
    let b = DataCell::Int(2);
    assert!(matches!(a.compare(&b), Some(CellOrd::Less)));
    let c = DataCell::Float("2.50".to_string());
    let d = DataCell::Float("2.5".to_string());
    assert!(matches!(c.compare(&d), Some(CellOrd::Equal)));
    let e = DataCell::Float("-0.0".to_string());
    let f = DataCell::Int(0);
    assert!(matches!(e.compare(&f), Some(CellOrd::Equal)));
    // Blank sorts first; text is incomparable with numbers.
    assert!(matches!(
        DataCell::Blank.compare(&DataCell::Int(1)),
        Some(CellOrd::Less)
    ));
    assert!(DataCell::PlainText("x".to_string())
        .compare(&DataCell::Int(1))
        .is_none());
}

#[test]
fn sub_keys_reduce_wiki_pages() {
    let mut wp = WikiPage::new_wikidata_item();
    wp.prefixed_title = Some("Q1".to_string());
    let cell = DataCell::WikiPage(wp);
    match cell.to_sub_key(&Some("ns_id".to_string())) {
        DataCell::Int(v) => assert_eq!(v, 0),
        other => panic!("expected an integer cell, got {:?}", other),
    }
    match cell.to_sub_key(&Some("prefixed_title".to_string())) {
        DataCell::PlainText(s) => assert_eq!(s, "Q1"),
        other => panic!("expected a text cell, got {:?}", other),
    }
    assert!(matches!(
        cell.to_sub_key(&Some("page_id".to_string())),
        DataCell::Blank
    ));
    assert!(matches!(cell.to_sub_key(&None), DataCell::Blank));
}
