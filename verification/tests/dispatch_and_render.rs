use toolflow::adapter::{get_webserver_for_wiki, WdFistParams};
use toolflow::data_cell::DataCell;
use toolflow::data_header::{ColumnHeader, ColumnHeaderType, DataHeader};
use toolflow::generator::splice_generated_section;
use toolflow::mapping::HeaderMapping;
use toolflow::node::{NodeAction, ParamValue, WorkflowNode, WorkflowNodeKind};
use toolflow::renderer::{pretty_filename, RendererWikitext};
use toolflow::table::{ArtifactBuilder, DataFileDetails, FlowError, Table};
use toolflow::wiki_page::WikiPage;

#[test]
fn webserver_resolution_rules() {
    assert_eq!(
        get_webserver_for_wiki("commonswiki").unwrap(),
        "commons.wikimedia.org"
    );
    assert_eq!(
        get_webserver_for_wiki("wikidatawiki").unwrap(),
        "www.wikidata.org"
    );
    assert_eq!(get_webserver_for_wiki("enwiki").unwrap(), "en.wikipedia.org");
    assert_eq!(
        get_webserver_for_wiki("be_x_oldwiki").unwrap(),
        "be-x-old.wikipedia.org"
    );
    assert_eq!(
        get_webserver_for_wiki("dewiktionary").unwrap(),
        "de.wiktionary.org"
    );
    assert!(get_webserver_for_wiki("x").is_none());
}

#[test]
fn node_dispatch_plans_actions() {
    let mut node = WorkflowNode {
        kind: WorkflowNodeKind::PetScan,
        parameters: vec![("psid".to_string(), ParamValue::Text("123".to_string()))],
        header_mapping: HeaderMapping::default(),
    };
    match node.plan_action(&vec![]).unwrap() {
        NodeAction::FetchPetScan { psid } => assert_eq!(psid, 123),
        other => panic!("wrong action: {:?}", other),
    }
    node.kind = WorkflowNodeKind::Filter;
    node.parameters = vec![
        ("key".to_string(), ParamValue::Text("col".to_string())),
        ("operator".to_string(), ParamValue::Text("Equal".to_string())),
        ("value".to_string(), ParamValue::Text("x".to_string())),
        ("remove_matching".to_string(), ParamValue::UInt(1)),
    ];
    match node.plan_action(&vec!["some-uuid".to_string()]).unwrap() {
        NodeAction::RunFilter { filter, uuid } => {
            assert_eq!(filter.key, "col");
            assert!(filter.remove_matching);
            assert_eq!(uuid, "some-uuid");
        }
        other => panic!("wrong action: {:?}", other),
    }
    // A filter with two inputs is refused.
    assert!(node
        .plan_action(&vec!["u1".to_string(), "u2".to_string()])
        .is_err());
    // A missing parameter is refused.
    node.parameters = vec![("key".to_string(), ParamValue::Text("col".to_string()))];
    assert!(matches!(
        node.plan_action(&vec!["u1".to_string()]),
        Err(FlowError::BadParameter(_))
    ));
}

#[test]
fn wdfist_parameters_round_to_petscan() {
    let p = WdFistParams::from_query_pairs(&vec![
        ("language".to_string(), "en".to_string()),
        ("project".to_string(), "wikipedia".to_string()),
        ("depth".to_string(), "3".to_string()),
        ("ignored".to_string(), "x".to_string()),
    ]);
    assert_eq!(p.language, Some("en".to_string()));
    assert_eq!(p.project, Some("wikipedia".to_string()));
    assert_eq!(p.depth, Some(3));
    assert_eq!(p.pagepile, None);
    assert!(p.wdf_langlinks);
    let url = p.to_petscan_url();
    assert_eq!(
        url,
        "https://petscan.wmflabs.org/?wdf_main=1&doit=1&format=json&language=en&\
         project=wikipedia&depth=3&wdf_langlinks=1&wdf_only_files_not_on_wd=1&\
         wdf_max_five_results=1"
    );
}

#[test]
fn wdfist_url_parsing() {
    let p = WdFistParams::from_url(
        "https://fist.toolforge.org/wdfist/index.html?depth=3&language=en&project=wikipedia",
    )
    .unwrap();
    assert_eq!(p.depth, Some(3));
    assert_eq!(p.language, Some("en".to_string()));
    assert!(matches!(
        WdFistParams::from_url("https://example.org/?depth=3"),
        Err(FlowError::UnsuitableSource)
    ));
    assert!(WdFistParams::from_url("not a url").is_err());
}

#[test]
fn pretty_filenames() {
    assert_eq!(pretty_filename("File:Some_image.jpg"), "Some image");
    assert_eq!(pretty_filename("No_prefix_or_ending"), "No prefix or ending");
}

#[test]
fn renders_a_small_table() {
    let mut item = WikiPage::new_wikidata_item();
    item.prefixed_title = Some("Q42".to_string());
    let table = Table {
        header: DataHeader {
            columns: vec![
                ColumnHeader {
                    name: "wikidata_item".to_string(),
                    kind: ColumnHeaderType::WikiPage(WikiPage::new_wikidata_item()),
                },
                ColumnHeader {
                    name: "page_count".to_string(),
                    kind: ColumnHeaderType::Int,
                },
            ],
        },
        rows: vec![vec![DataCell::WikiPage(item), DataCell::Int(5)]],
    };
    let text = RendererWikitext::default().render(&table).unwrap();
    assert_eq!(
        text,
        "{| class=\"wikitable\"\n! wikidata item\n! page count\n|--\n||{{Q|42}}\n||5\n|}\n"
    );
}

#[test]
fn renderer_needs_a_prefixed_title() {
    let table = Table {
        header: DataHeader {
            columns: vec![ColumnHeader {
                name: "p".to_string(),
                kind: ColumnHeaderType::WikiPage(WikiPage::new_wikidata_item()),
            }],
        },
        rows: vec![vec![DataCell::WikiPage(WikiPage::new_wikidata_item())]],
    };
    assert!(matches!(
        RendererWikitext::default().render(&table),
        Err(FlowError::SourceDecode(_))
    ));
}

#[test]
fn splice_replaces_the_generated_section() {
    let before = "Intro\n<!--TOOLFLOW GENERATOR START-->\nold\n<!--TOOLFLOW GENERATOR END-->\nOutro";
    let (after, changed) = splice_generated_section(before, "new table");
    assert_eq!(
        after,
        "Intro\n<!--TOOLFLOW GENERATOR START-->\nnew table\n<!--TOOLFLOW GENERATOR END-->\n\nOutro"
    );
    assert!(changed);
    // Splicing again replaces the section in place, with one more blank
    // line after it (the fresh section always ends in a newline).
    let (again, changed2) = splice_generated_section(&after, "new table");
    assert_eq!(
        again,
        "Intro\n<!--TOOLFLOW GENERATOR START-->\nnew table\n<!--TOOLFLOW GENERATOR END-->\n\n\nOutro"
    );
    assert!(changed2);
}

#[test]
fn splice_appends_when_no_section_exists() {
    let (after, changed) = splice_generated_section("Existing text", "tbl");
    assert_eq!(
        after,
        "Existing text\n<!--TOOLFLOW GENERATOR START-->\ntbl\n<!--TOOLFLOW GENERATOR END-->"
    );
    assert!(changed);
}

#[test]
fn artifact_row_count_matches_lines() {
    let mut b = ArtifactBuilder::new("some-artifact".to_string(), "[\"header\"]".to_string());
    b.push_row_line("[\"a\"]".to_string());
    b.push_row_line("[]".to_string());
    b.push_row_line("".to_string());
    b.push_row_line("[\"b\"]".to_string());
    let d = b.details();
    assert_eq!(d.rows, 2);
    assert_eq!(b.lines().len(), 3);
    assert!(d.is_valid());
    assert_eq!(d.uuid, "some-artifact");
    let invalid = DataFileDetails::new_invalid();
    assert!(!invalid.is_valid());
}
