//! Source specifications and header mappings: what an adapter fetches, and
//! how source fields populate the columns of a fresh artifact.
use vstd::prelude::*;

use crate::data_header::{ColumnHeader, ColumnHeaderType, ColumnHeaderV, DataHeader};
use crate::wiki_page::WikiPage;

verus! {

/// What an adapter fetches: a query, a numeric id, a URL, or a wiki/item
/// pair.
#[derive(Clone, Debug)]
pub enum SourceId {
    QuarryQueryRun(u64),
    QuarryQueryLatest(u64),
    Sparql(String),
    PetScan(u64),
    PagePile(u64),
    AListBuildingTool(String, String),
    WdFist(String),
    UserEdits(String),
}

/// One output column: its header, and which source labels feed which wiki
/// page fields.
#[derive(Clone, Debug)]
pub struct ColumnMapping {
    pub header: ColumnHeader,
    pub mapping: Vec<(String, String)>,
}

/// The value of a `ColumnMapping`.
#[verifier::ext_equal]
pub struct ColumnMappingV {
    pub header: ColumnHeaderV,
    pub mapping: Seq<(Seq<char>, Seq<char>)>,
}

impl View for ColumnMapping {
    type V = ColumnMappingV;

    open spec fn view(&self) -> ColumnMappingV {
        ColumnMappingV {
            header: self.header@,
            mapping: self.mapping@.map_values(|p: (String, String)| (p.0@, p.1@)),
        }
    }
}

/// An ordered list of column mappings, built column by column.
#[derive(Clone, Debug)]
pub struct HeaderMapping {
    pub data: Vec<ColumnMapping>,
}

impl View for HeaderMapping {
    type V = Seq<ColumnMappingV>;

    open spec fn view(&self) -> Seq<ColumnMappingV> {
        self.data@.map_values(|cm: ColumnMapping| cm@)
    }
}

impl Default for HeaderMapping {
    /// A mapping with no columns.
    fn default() -> (r: Self)
        ensures
            r@.len() == 0,
    {
        HeaderMapping { data: Vec::new() }
    }
}

/// The mapping one source column feeding one target entry makes.
pub open spec fn one_column(
    kind: crate::data_header::ColKindV,
    source: Seq<char>,
    label: Seq<char>,
) -> ColumnMappingV {
    ColumnMappingV {
        header: ColumnHeaderV { name: label, kind },
        mapping: seq![(source, label)],
    }
}

impl HeaderMapping {
    /// Adds a plain-text column fed from `source_column`.
    pub fn add_plain_text(&mut self, source_column: &str, header_label: &str)
        ensures
            final (self)@ == old(self)@.push(
                one_column(
                    crate::data_header::ColKindV::PlainText,
                    source_column@,
                    header_label@,
                ),
            ),
    {
        self.data.push(
            ColumnMapping {
                header: ColumnHeader {
                    name: header_label.to_owned(),
                    kind: ColumnHeaderType::PlainText,
                },
                mapping: vec![(source_column.to_owned(), header_label.to_owned())],
            },
        );
        proof {
            assert(self@ =~~= old(self)@.push(
                one_column(
                    crate::data_header::ColKindV::PlainText,
                    source_column@,
                    header_label@,
                ),
            ));
        }
    }

    /// Adds a Wikidata item column fed from `source_column`.
    pub fn add_wikidata_item(&mut self, source_column: &str, header_label: &str)
        ensures
            final (self)@ == old(self)@.push(
                one_column(
                    crate::data_header::ColKindV::WikiPage(
                        crate::wiki_page::WikiPageV {
                            ns_id: Some(0i64),
                            wiki: Some("wikidatawiki"@),
                            ..WikiPage::empty_page()
                        },
                    ),
                    source_column@,
                    header_label@,
                ),
            ),
    {
        self.data.push(
            ColumnMapping {
                header: ColumnHeader {
                    name: header_label.to_owned(),
                    kind: ColumnHeaderType::WikiPage(WikiPage::new_wikidata_item()),
                },
                mapping: vec![(source_column.to_owned(), header_label.to_owned())],
            },
        );
        proof {
            assert(self@ =~~= old(self)@.push(
                one_column(
                    crate::data_header::ColKindV::WikiPage(
                        crate::wiki_page::WikiPageV {
                            ns_id: Some(0i64),
                            wiki: Some("wikidatawiki"@),
                            ..WikiPage::empty_page()
                        },
                    ),
                    source_column@,
                    header_label@,
                ),
            ));
        }
    }

    /// Adds a wiki page column with the given column defaults.
    pub fn add_wiki_page(&mut self, source_column: &str, header_label: &str, wiki_page: &WikiPage)
        ensures
            final (self)@ == old(self)@.push(
                one_column(
                    crate::data_header::ColKindV::WikiPage(wiki_page@),
                    source_column@,
                    header_label@,
                ),
            ),
    {
        self.data.push(
            ColumnMapping {
                header: ColumnHeader {
                    name: header_label.to_owned(),
                    kind: ColumnHeaderType::WikiPage(wiki_page.duplicate()),
                },
                mapping: vec![(source_column.to_owned(), header_label.to_owned())],
            },
        );
        proof {
            assert(self@ =~~= old(self)@.push(
                one_column(
                    crate::data_header::ColKindV::WikiPage(wiki_page@),
                    source_column@,
                    header_label@,
                ),
            ));
        }
    }

    /// A copy of the mapping built so far.
    pub fn build(&self) -> (r: Self)
        ensures
            r@ == self@,
    {
        let mut data: Vec<ColumnMapping> = Vec::new();
        let n = self.data.len();
        let mut i: usize = 0;
        while i < n
            invariant
                n == self.data@.len(),
                i <= n,
                data@.len() == i,
                forall|j: int| 0 <= j < i ==> #[trigger] data@[j]@ == self@[j],
            decreases n - i,
        {
            data.push(self.copy_column(i));
            i = i + 1;
        }
        let r = HeaderMapping { data };
        proof {
            assert forall|j: int| 0 <= j < n implies r@[j] == self@[j] by {
                assert(r@[j] == data@[j]@);
            }
            assert(r@ =~= self@);
        }
        r
    }

    fn copy_column(&self, i: usize) -> (r: ColumnMapping)
        requires
            i < self.data@.len(),
        ensures
            r@ == self@[i as int],
    {
        let cm = &self.data[i];
        let kind = match &cm.header.kind {
            ColumnHeaderType::PlainText => ColumnHeaderType::PlainText,
            ColumnHeaderType::WikiPage(w) => ColumnHeaderType::WikiPage(w.duplicate()),
            ColumnHeaderType::Int => ColumnHeaderType::Int,
            ColumnHeaderType::Float => ColumnHeaderType::Float,
        };
        let mut mapping: Vec<(String, String)> = Vec::new();
        let n = cm.mapping.len();
        let mut j: usize = 0;
        while j < n
            invariant
                n == cm.mapping@.len(),
                j <= n,
                mapping@.len() == j,
                forall|k: int| 0 <= k < j ==> (#[trigger] mapping@[k].0@, mapping@[k].1@)
                    == cm@.mapping[k],
            decreases n - j,
        {
            let pair = (cm.mapping[j].0.clone(), cm.mapping[j].1.clone());
            proof {
                assert(cm@.mapping[j as int] == (cm.mapping@[j as int].0@, cm.mapping@[j as int].1@));
            }
            mapping.push(pair);
            j = j + 1;
        }
        let r = ColumnMapping {
            header: ColumnHeader { name: cm.header.name.clone(), kind },
            mapping,
        };
        proof {
            assert forall|k: int| 0 <= k < n implies r@.mapping[k] == cm@.mapping[k] by {}
            assert(r@.mapping =~= cm@.mapping);
            assert(r@ =~~= self@[i as int]);
        }
        r
    }

    /// The data header the mapping describes: its columns in order.
    pub fn as_data_header(&self) -> (r: DataHeader)
        ensures
            r@ == self@.map_values(|cm: ColumnMappingV| cm.header),
    {
        let mut columns: Vec<ColumnHeader> = Vec::new();
        let n = self.data.len();
        let mut i: usize = 0;
        while i < n
            invariant
                n == self.data@.len(),
                i <= n,
                columns@.len() == i,
                forall|j: int| 0 <= j < i ==> #[trigger] columns@[j]@ == self@[j].header,
            decreases n - i,
        {
            let cm = self.copy_column(i);
            columns.push(cm.header);
            i = i + 1;
        }
        let r = DataHeader { columns };
        proof {
            assert forall|j: int| 0 <= j < n implies r@[j] == self@.map_values(
                |cm: ColumnMappingV| cm.header,
            )[j] by {
                assert(r@[j] == columns@[j]@);
            }
            assert(r@ =~= self@.map_values(|cm: ColumnMappingV| cm.header));
        }
        r
    }
}

} // verus!
