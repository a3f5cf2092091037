//! What adapters compute: resolving a wiki id to its web server, projecting
//! fetched records onto the mapped columns, and assembling the parameters of
//! an image-suggestion batch query. The fetching itself is network work and
//! happens outside the library; URL parsing and encoding go through the
//! `url` crate.
use vstd::prelude::*;

use crate::data_cell::{from_value_spec, CellV, DataCell, SourceValue, SourceV};
use crate::mapping::{ColumnMappingV, HeaderMapping};
use crate::renderer::{last_wik_index, lemma_last_wik_props, wik_at};
use crate::site::SiteTable;
use crate::table::{row_view, FlowError};
use crate::text::{
    i64_of_digits, i64_to_string, parse_i64, parse_u64, replace_char, replace_char_seq, str_eq,
    u64_to_string,
};

verus! {

/// The web server of a wiki id: a few sites are named outright; otherwise
/// underscores become dashes, `…wiki` maps to `….wikipedia.org`, and
/// `…wikSUFFIX` (with a non-empty suffix) maps to `….wikSUFFIX.org`.
pub open spec fn spec_webserver(wiki: Seq<char>) -> Option<Seq<char>> {
    if wiki == "commonswiki"@ {
        Some("commons.wikimedia.org"@)
    } else if wiki == "wikidatawiki"@ {
        Some("www.wikidata.org"@)
    } else if wiki == "specieswiki"@ {
        Some("species.wikimedia.org"@)
    } else if wiki == "metawiki"@ {
        Some("meta.wikimedia.org"@)
    } else {
        let d = replace_char_seq(wiki, '_', '-');
        if d.len() >= 5 && d.skip(d.len() - 4) == "wiki"@ {
            Some(d.take(d.len() - 4) + ".wikipedia.org"@)
        } else {
            let j = if d.len() >= 1 {
                last_wik_index(d.take(d.len() - 1))
            } else {
                -1
            };
            if j != -1 {
                Some(d.take(j) + seq!['.'] + d.skip(j) + ".org"@)
            } else {
                None
            }
        }
    }
}

/// The web server serving a wiki, if its id is recognised.
pub fn get_webserver_for_wiki(wiki: &str) -> (r: Option<String>)
    ensures
        match r {
            Some(s) => spec_webserver(wiki@) == Some(s@),
            None => spec_webserver(wiki@) is None,
        },
{
    if str_eq(wiki, "commonswiki") {
        return Some("commons.wikimedia.org".to_owned());
    }
    if str_eq(wiki, "wikidatawiki") {
        return Some("www.wikidata.org".to_owned());
    }
    if str_eq(wiki, "specieswiki") {
        return Some("species.wikimedia.org".to_owned());
    }
    if str_eq(wiki, "metawiki") {
        return Some("meta.wikimedia.org".to_owned());
    }
    let d = replace_char(wiki, '_', '-');
    let n = d.as_str().unicode_len();
    if n >= 5 {
        let tail = d.as_str().substring_char(n - 4, n);
        if str_eq(tail, "wiki") {
            proof {
                assert(tail@ =~= d@.skip(n as int - 4));
            }
            let mut out = d.as_str().substring_char(0, n - 4).to_owned();
            out.append(".wikipedia.org");
            proof {
                assert(out@ =~= d@.take(n as int - 4) + ".wikipedia.org"@);
            }
            return Some(out);
        }
        proof {
            assert(tail@ =~= d@.skip(n as int - 4));
        }
    }
    // Split at the last `wik` that leaves a non-empty suffix.
    if n >= 5 {
        let ghost t = d@.take(n as int - 1);
        let mut j: usize = n - 4;
        while j >= 1
            invariant
                n == d@.len(),
                n >= 5,
                t == d@.take(n as int - 1),
                j <= n - 4,
                d@ == replace_char_seq(wiki@, '_', '-'),
                wiki@ != "commonswiki"@,
                wiki@ != "wikidatawiki"@,
                wiki@ != "specieswiki"@,
                wiki@ != "metawiki"@,
                d@.skip(n as int - 4) != "wiki"@,
                forall|x: int| j < x && x + 3 <= t.len() ==> !wik_at(t, x),
            decreases j,
        {
            if d.as_str().get_char(j) == 'w' && d.as_str().get_char(j + 1) == 'i'
                && d.as_str().get_char(j + 2) == 'k' {
                proof {
                    assert(t[j as int] == 'w' && t[j as int + 1] == 'i' && t[j as int + 2] == 'k');
                    assert(wik_at(t, j as int));
                    lemma_last_wik_props(t);
                    if last_wik_index(t) == -1 {
                        assert(!wik_at(t, j as int));
                    } else if last_wik_index(t) < j as int {
                        assert(!wik_at(t, j as int));
                    } else if last_wik_index(t) > j as int {
                        assert(!wik_at(t, last_wik_index(t)));
                    }
                    assert(last_wik_index(t) == j as int);
                }
                let mut out = d.as_str().substring_char(0, j).to_owned();
                out.append(".");
                out.append(d.as_str().substring_char(j, n));
                out.append(".org");
                proof {
                    reveal_strlit(".");
                    assert("."@ =~= seq!['.']);
                    assert(out@ =~= d@.take(j as int) + seq!['.'] + d@.skip(j as int) + ".org"@);
                }
                return Some(out);
            }
            proof {
                if wik_at(t, j as int) {
                    assert(t[j as int] == d@[j as int]);
                    assert(t[j as int + 1] == d@[j as int + 1]);
                    assert(t[j as int + 2] == d@[j as int + 2]);
                }
            }
            j = j - 1;
        }
        proof {
            lemma_last_wik_props(t);
            if last_wik_index(t) != -1 {
                assert(!wik_at(t, last_wik_index(t)));
            }
        }
        None
    } else {
        proof {
            // Too short to split: the prefix check below the suffix never
            // finds room for `wik` plus a following character.
            if n >= 1 {
                let t = d@.take(n as int - 1);
                lemma_last_wik_props(t);
                if last_wik_index(t) != -1 {
                    assert(!wik_at(t, last_wik_index(t)));
                }
            }
        }
        None
    }
}

/// What one projected cell is: the mapped source value built into a cell of
/// the column's kind, with `Blank` standing for a missing value or a value
/// the column cannot hold.
pub open spec fn projected_cell(
    cm: ColumnMappingV,
    value: Option<SourceV>,
    sites: Seq<crate::site::SiteNamespaces>,
) -> CellV {
    if cm.mapping.len() == 0 {
        CellV::Blank
    } else {
        match value {
            Some(v) => match from_value_spec(v, cm.header.kind, cm.mapping[0].1, sites) {
                Some(c) => c,
                None => CellV::Blank,
            },
            None => CellV::Blank,
        }
    }
}

/// Builds one artifact row from the values fetched for each mapped column:
/// column `i` takes `values[i]` through the column's mapping.
pub fn project_row(
    mapping: &HeaderMapping,
    values: &Vec<Option<SourceValue>>,
    sites: &SiteTable,
) -> (r: Vec<DataCell>)
    requires
        values@.len() == mapping@.len(),
    ensures
        row_view(r).len() == mapping@.len(),
        forall|i: int|
            0 <= i < mapping@.len() ==> row_view(r)[i] == projected_cell(
                mapping@[i],
                match values@[i] {
                    Some(v) => Some(v@),
                    None => None,
                },
                sites.sites@,
            ),
{
    let n = mapping.data.len();
    let mut r: Vec<DataCell> = Vec::new();
    let mut i: usize = 0;
    while i < n
        invariant
            n == mapping.data@.len(),
            n == mapping@.len(),
            values@.len() == n,
            i <= n,
            r@.len() == i,
            forall|x: int|
                0 <= x < i ==> #[trigger] r@[x]@ == projected_cell(
                    mapping@[x],
                    match values@[x] {
                        Some(v) => Some(v@),
                        None => None,
                    },
                    sites.sites@,
                ),
        decreases n - i,
    {
        proof {
            assert(mapping@[i as int] == mapping.data@[i as int]@);
        }
        let cm = &mapping.data[i];
        let cell: DataCell = if cm.mapping.len() == 0 {
            DataCell::Blank
        } else {
            match &values[i] {
                Some(v) => {
                    proof {
                        assert(cm@.mapping[0] == (cm.mapping@[0].0@, cm.mapping@[0].1@));
                    }
                    match DataCell::from_value(v, &cm.header, cm.mapping[0].1.as_str(), sites) {
                        Some(c) => c,
                        None => DataCell::Blank,
                    }
                },
                None => DataCell::Blank,
            }
        };
        r.push(cell);
        i = i + 1;
    }
    proof {
        assert forall|i: int| 0 <= i < n implies row_view(r)[i] == projected_cell(
            mapping@[i],
            match values@[i] {
                Some(v) => Some(v@),
                None => None,
            },
            sites.sites@,
        ) by {
            assert(row_view(r)[i] == r@[i]@);
        }
    }
    r
}

} // verus!

// ___________________________________________________________________________
// The image-suggestion batch query: its parameters, read from a tool URL and
// re-encoded for the batch service.

verus! {

/// The parameters of an image-suggestion batch query.
#[derive(Clone, Debug)]
pub struct WdFistParams {
    pub sparql: Option<String>,
    pub language: Option<String>,
    pub project: Option<String>,
    pub category: Option<String>,
    pub depth: Option<i64>,
    pub pagepile: Option<u64>,
    pub psid: Option<u64>,
    pub no_images_only: bool,
    pub wdf_langlinks: bool,
    pub wdf_only_files_not_on_wd: bool,
    pub wdf_max_five_results: bool,
}

/// The mathematical value of the parameters.
#[verifier::ext_equal]
pub struct WdFistV {
    pub sparql: Option<Seq<char>>,
    pub language: Option<Seq<char>>,
    pub project: Option<Seq<char>>,
    pub category: Option<Seq<char>>,
    pub depth: Option<i64>,
    pub pagepile: Option<u64>,
    pub psid: Option<u64>,
    pub no_images_only: bool,
    pub wdf_langlinks: bool,
    pub wdf_only_files_not_on_wd: bool,
    pub wdf_max_five_results: bool,
}

impl View for WdFistParams {
    type V = WdFistV;

    open spec fn view(&self) -> WdFistV {
        WdFistV {
            sparql: crate::wiki_page::opt_str_view(self.sparql),
            language: crate::wiki_page::opt_str_view(self.language),
            project: crate::wiki_page::opt_str_view(self.project),
            category: crate::wiki_page::opt_str_view(self.category),
            depth: self.depth,
            pagepile: self.pagepile,
            psid: self.psid,
            no_images_only: self.no_images_only,
            wdf_langlinks: self.wdf_langlinks,
            wdf_only_files_not_on_wd: self.wdf_only_files_not_on_wd,
            wdf_max_five_results: self.wdf_max_five_results,
        }
    }
}

/// The defaults before any query pair is read: nothing set, and the three
/// fixed flags of the tool switched on.
pub open spec fn wdfist_defaults() -> WdFistV {
    WdFistV {
        sparql: None,
        language: None,
        project: None,
        category: None,
        depth: None,
        pagepile: None,
        psid: None,
        no_images_only: false,
        wdf_langlinks: true,
        wdf_only_files_not_on_wd: true,
        wdf_max_five_results: true,
    }
}

/// The value of a `u64` query parameter, if its text is one.
pub open spec fn u64_of_digits(s: Seq<char>) -> Option<u64> {
    if s.len() > 0 && crate::text::all_digits(s) && crate::text::digits_val(s) <= u64::MAX {
        Some(crate::text::digits_val(s) as u64)
    } else {
        None
    }
}

/// One query pair applied to the parameters.
pub open spec fn wdfist_apply(p: WdFistV, k: Seq<char>, v: Seq<char>) -> WdFistV {
    if k == "sparql"@ {
        WdFistV { sparql: Some(v), ..p }
    } else if k == "language"@ {
        WdFistV { language: Some(v), ..p }
    } else if k == "project"@ {
        WdFistV { project: Some(v), ..p }
    } else if k == "category"@ {
        WdFistV { category: Some(v), ..p }
    } else if k == "depth"@ {
        WdFistV { depth: i64_of_digits(v), ..p }
    } else if k == "pagepile"@ {
        WdFistV { pagepile: u64_of_digits(v), ..p }
    } else if k == "psid"@ {
        WdFistV { psid: u64_of_digits(v), ..p }
    } else if k == "no_images_only"@ {
        WdFistV {
            no_images_only: match u64_of_digits(v) {
                Some(n) => n <= 255 && n == 1,
                None => false,
            },
            ..p
        }
    } else {
        p
    }
}

/// The parameters the first `upto` query pairs leave behind.
pub open spec fn wdfist_fold(pairs: Seq<(Seq<char>, Seq<char>)>, upto: int) -> WdFistV
    decreases upto,
{
    if upto <= 0 {
        wdfist_defaults()
    } else {
        wdfist_apply(wdfist_fold(pairs, upto - 1), pairs[upto - 1].0, pairs[upto - 1].1)
    }
}

/// The views of a query pair list.
pub open spec fn pairs_view(pairs: Seq<(String, String)>) -> Seq<(Seq<char>, Seq<char>)> {
    pairs.map_values(|p: (String, String)| (p.0@, p.1@))
}

impl WdFistParams {
    /// Reads the parameters from a tool URL's query pairs, in order; later
    /// pairs win.
    pub fn from_query_pairs(pairs: &Vec<(String, String)>) -> (r: WdFistParams)
        ensures
            r@ == wdfist_fold(pairs_view(pairs@), pairs@.len() as int),
    {
        let mut r = WdFistParams {
            sparql: None,
            language: None,
            project: None,
            category: None,
            depth: None,
            pagepile: None,
            psid: None,
            no_images_only: false,
            wdf_langlinks: true,
            wdf_only_files_not_on_wd: true,
            wdf_max_five_results: true,
        };
        proof {
            assert(r@ =~= wdfist_defaults());
        }
        let n = pairs.len();
        let mut i: usize = 0;
        while i < n
            invariant
                n == pairs@.len(),
                i <= n,
                r@ == wdfist_fold(pairs_view(pairs@), i as int),
            decreases n - i,
        {
            proof {
                assert(pairs_view(pairs@)[i as int] == (pairs@[i as int].0@, pairs@[i as int].1@));
            }
            let k = &pairs[i].0;
            let v = &pairs[i].1;
            if str_eq(k.as_str(), "sparql") {
                r.sparql = Some(v.clone());
            } else if str_eq(k.as_str(), "language") {
                r.language = Some(v.clone());
            } else if str_eq(k.as_str(), "project") {
                r.project = Some(v.clone());
            } else if str_eq(k.as_str(), "category") {
                r.category = Some(v.clone());
            } else if str_eq(k.as_str(), "depth") {
                r.depth = parse_i64(v.as_str());
            } else if str_eq(k.as_str(), "pagepile") {
                r.pagepile = parse_u64(v.as_str());
            } else if str_eq(k.as_str(), "psid") {
                r.psid = parse_u64(v.as_str());
            } else if str_eq(k.as_str(), "no_images_only") {
                r.no_images_only = match parse_u64(v.as_str()) {
                    Some(x) => x <= 255 && x == 1,
                    None => false,
                };
            }
            i = i + 1;
            proof {
                assert(r@ =~= wdfist_fold(pairs_view(pairs@), i as int));
            }
        }
        r
    }

    /// The parameter list of the batch query these parameters stand for:
    /// the fixed header pairs, then every set field, then the flags.
    #[verifier::spinoff_prover]
    #[verifier::rlimit(100)]
    fn petscan_params_head(&self) -> (r: Vec<(String, String)>)
        ensures
            pairs_view(r@) == spec_petscan_head(self@),
    {
        let mut r: Vec<(String, String)> = Vec::new();
        r.push(("wdf_main".to_owned(), "1".to_owned()));
        r.push(("doit".to_owned(), "1".to_owned()));
        r.push(("format".to_owned(), "json".to_owned()));
        let ghost e0 = seq![("wdf_main"@, "1"@), ("doit"@, "1"@), ("format"@, "json"@)];
        proof {
            assert(pairs_view(r@) =~= e0);
        }
        match &self.sparql {
            Some(v) => {
                r.push(("sparql".to_owned(), v.clone()));
            },
            None => {},
        }
        let ghost e1 = e0 + opt_pair("sparql"@, self@.sparql);
        proof {
            assert(pairs_view(r@) =~= e1);
        }
        match &self.language {
            Some(v) => {
                r.push(("language".to_owned(), v.clone()));
            },
            None => {},
        }
        let ghost e2 = e1 + opt_pair("language"@, self@.language);
        proof {
            assert(pairs_view(r@) =~= e2);
        }
        match &self.project {
            Some(v) => {
                r.push(("project".to_owned(), v.clone()));
            },
            None => {},
        }
        let ghost e3 = e2 + opt_pair("project"@, self@.project);
        proof {
            assert(pairs_view(r@) =~= e3);
        }
        match &self.category {
            Some(v) => {
                r.push(("categories".to_owned(), v.clone()));
            },
            None => {},
        }
        let ghost e4 = e3 + opt_pair("categories"@, self@.category);
        proof {
            assert(pairs_view(r@) =~= e4);
        }
        match self.depth {
            Some(v) => {
                r.push(("depth".to_owned(), i64_to_string(v)));
            },
            None => {},
        }
        let ghost e5 = e4 + (match self@.depth {
            Some(v) => seq![("depth"@, crate::text::i64_dec_digits(v as int))],
            None => Seq::<(Seq<char>, Seq<char>)>::empty(),
        });
        proof {
            assert(pairs_view(r@) =~= e5);
        }
        match self.pagepile {
            Some(v) => {
                r.push(("pagepile".to_owned(), u64_to_string(v)));
            },
            None => {},
        }
        let ghost e6 = e5 + (match self@.pagepile {
            Some(v) => seq![("pagepile"@, crate::text::dec_digits(v as nat))],
            None => Seq::<(Seq<char>, Seq<char>)>::empty(),
        });
        proof {
            assert(pairs_view(r@) =~= e6);
        }
        match self.psid {
            Some(v) => {
                r.push(("psid".to_owned(), u64_to_string(v)));
            },
            None => {},
        }
        proof {
            assert(pairs_view(r@) =~= spec_petscan_head(self@));
        }
        r
    }

    /// The parameter list of the batch query these parameters stand for:
    /// the fixed header pairs, then every set field, then the flags.
    #[verifier::spinoff_prover]
    #[verifier::rlimit(100)]
    pub fn to_petscan_params(&self) -> (r: Vec<(String, String)>)
        ensures
            pairs_view(r@) == spec_petscan_params(self@),
    {
        let mut r = self.petscan_params_head();
        let ghost head = spec_petscan_head(self@);
        if self.no_images_only {
            r.push(("wdf_only_items_without_p18".to_owned(), "1".to_owned()));
        }
        let ghost f1 = head + flag_pair("wdf_only_items_without_p18"@, self@.no_images_only);
        proof {
            assert(pairs_view(r@) =~= f1);
        }
        if self.wdf_langlinks {
            r.push(("wdf_langlinks".to_owned(), "1".to_owned()));
        }
        let ghost f2 = f1 + flag_pair("wdf_langlinks"@, self@.wdf_langlinks);
        proof {
            assert(pairs_view(r@) =~= f2);
        }
        if self.wdf_only_files_not_on_wd {
            r.push(("wdf_only_files_not_on_wd".to_owned(), "1".to_owned()));
        }
        let ghost f3 = f2 + flag_pair("wdf_only_files_not_on_wd"@, self@.wdf_only_files_not_on_wd);
        proof {
            assert(pairs_view(r@) =~= f3);
        }
        if self.wdf_max_five_results {
            r.push(("wdf_max_five_results".to_owned(), "1".to_owned()));
        }
        proof {
            assert(pairs_view(r@) =~= f3 + flag_pair(
                "wdf_max_five_results"@,
                self@.wdf_max_five_results,
            ));
            assert(f3 + flag_pair("wdf_max_five_results"@, self@.wdf_max_five_results)
                =~= spec_petscan_params(self@));
        }
        r
    }

    /// The full batch-query URL for these parameters.
    pub fn to_petscan_url(&self) -> (r: String)
        ensures
            r@ == url_with_params_of(spec_petscan_params(self@)),
    {
        let params = self.to_petscan_params();
        petscan_url_with_params(&params)
    }
}

/// The fixed pairs and the set fields of a batch query.
pub open spec fn spec_petscan_head(p: WdFistV) -> Seq<(Seq<char>, Seq<char>)> {
    let base = seq![("wdf_main"@, "1"@), ("doit"@, "1"@), ("format"@, "json"@)];
    let base = base + opt_pair("sparql"@, p.sparql);
    let base = base + opt_pair("language"@, p.language);
    let base = base + opt_pair("project"@, p.project);
    let base = base + opt_pair("categories"@, p.category);
    let base = base + (match p.depth {
        Some(v) => seq![("depth"@, crate::text::i64_dec_digits(v as int))],
        None => Seq::<(Seq<char>, Seq<char>)>::empty(),
    });
    let base = base + (match p.pagepile {
        Some(v) => seq![("pagepile"@, crate::text::dec_digits(v as nat))],
        None => Seq::<(Seq<char>, Seq<char>)>::empty(),
    });
    base + (match p.psid {
        Some(v) => seq![("psid"@, crate::text::dec_digits(v as nat))],
        None => Seq::<(Seq<char>, Seq<char>)>::empty(),
    })
}

/// The flag pairs of a batch query.
pub open spec fn spec_petscan_flags(p: WdFistV) -> Seq<(Seq<char>, Seq<char>)> {
    flag_pair("wdf_only_items_without_p18"@, p.no_images_only) + flag_pair(
        "wdf_langlinks"@,
        p.wdf_langlinks,
    ) + flag_pair("wdf_only_files_not_on_wd"@, p.wdf_only_files_not_on_wd) + flag_pair(
        "wdf_max_five_results"@,
        p.wdf_max_five_results,
    )
}

/// The batch-query parameter list a set of tool parameters stands for.
pub open spec fn spec_petscan_params(p: WdFistV) -> Seq<(Seq<char>, Seq<char>)> {
    spec_petscan_head(p) + spec_petscan_flags(p)
}

/// A single optional pair.
pub open spec fn opt_pair(key: Seq<char>, v: Option<Seq<char>>) -> Seq<(Seq<char>, Seq<char>)> {
    match v {
        Some(v) => seq![(key, v)],
        None => Seq::empty(),
    }
}

/// A single flag pair.
pub open spec fn flag_pair(key: Seq<char>, set: bool) -> Seq<(Seq<char>, Seq<char>)> {
    if set {
        seq![(key, "1"@)]
    } else {
        Seq::empty()
    }
}

// ___________________________________________________________________________
// What the `url` crate does for the adapters.

/// Whether `url::Url::parse` accepts the text.
pub uninterp spec fn url_valid(s: Seq<char>) -> bool;

/// What `url::Url::host_str` returns for a URL text: a function of the text
/// alone.
pub uninterp spec fn url_host_of(s: Seq<char>) -> Option<Seq<char>>;

/// What `url::Url::query_pairs` returns for a URL text, decoded and in
/// order: a function of the text alone.
pub uninterp spec fn url_query_pairs_of(s: Seq<char>) -> Seq<(Seq<char>, Seq<char>)>;

/// What `url::Url::parse_with_params` builds on the batch service's fixed
/// base URL: a function of the parameter list alone.
pub uninterp spec fn url_with_params_of(params: Seq<(Seq<char>, Seq<char>)>) -> Seq<char>;

#[verifier::external_type_specification]
#[verifier::external_body]
pub struct ExUrl(url::Url);

/// A parsed URL, remembering the text it was parsed from.
pub struct ParsedUrl {
    u: url::Url,
    text: String,
}

impl ParsedUrl {
    /// The text this URL was parsed from.
    pub closed spec fn spec_text(&self) -> Seq<char> {
        self.text@
    }

    /// Relies on `url::Url::parse`: whether a text parses depends on the
    /// text alone.
    #[verifier::external_body]
    pub fn parse(s: &str) -> (r: Option<ParsedUrl>)
        ensures
            r is Some <==> url_valid(s@),
            r is Some ==> r.unwrap().spec_text() == s@,
    {
        match url::Url::parse(s) {
            Ok(u) => Some(ParsedUrl { u, text: s.to_owned() }),
            Err(_) => None,
        }
    }

    /// Relies on `url::Url::host_str`: the host is a function of the URL
    /// text.
    #[verifier::external_body]
    pub fn host_str(&self) -> (r: Option<String>)
        ensures
            match r {
                Some(h) => url_host_of(self.spec_text()) == Some(h@),
                None => url_host_of(self.spec_text()) is None,
            },
    {
        self.u.host_str().map(|h| h.to_owned())
    }

    /// Relies on `url::Url::query_pairs`: the decoded pairs are a function
    /// of the URL text.
    #[verifier::external_body]
    pub fn query_pairs(&self) -> (r: Vec<(String, String)>)
        ensures
            pairs_view(r@) == url_query_pairs_of(self.spec_text()),
    {
        self.u.query_pairs().map(|(k, v)| (k.into_owned(), v.into_owned())).collect()
    }
}

/// Relies on `url::Url::parse_with_params` over the batch service's base
/// URL, which always parses: the result is a function of the parameters.
#[verifier::external_body]
pub fn petscan_url_with_params(params: &Vec<(String, String)>) -> (r: String)
    ensures
        r@ == url_with_params_of(pairs_view(params@)),
{
    match url::Url::parse_with_params("https://petscan.wmflabs.org", params) {
        Ok(u) => u.into(),
        Err(_) => String::new(),
    }
}

impl WdFistParams {
    /// Reads the parameters from the tool URL itself. Fails with
    /// `SourceDecode` on an unparsable URL and with `UnsuitableSource` when
    /// the URL is not the tool's.
    pub fn from_url(url: &str) -> (r: Result<WdFistParams, FlowError>)
        ensures
            match r {
                Ok(p) => {
                    &&& url_valid(url@)
                    &&& url_host_of(url@) == Some("fist.toolforge.org"@)
                    &&& p@ == wdfist_fold(
                        url_query_pairs_of(url@),
                        url_query_pairs_of(url@).len() as int,
                    )
                },
                Err(FlowError::SourceDecode(_)) => !url_valid(url@),
                Err(FlowError::UnsuitableSource) => url_valid(url@) && url_host_of(url@) != Some(
                    "fist.toolforge.org"@,
                ),
                Err(_) => false,
            },
    {
        let parsed = match ParsedUrl::parse(url) {
            Some(p) => p,
            None => {
                return Err(FlowError::SourceDecode(url.to_owned()));
            },
        };
        let host_ok = match parsed.host_str() {
            Some(h) => str_eq(h.as_str(), "fist.toolforge.org"),
            None => false,
        };
        if !host_ok {
            return Err(FlowError::UnsuitableSource);
        }
        let pairs = parsed.query_pairs();
        Ok(WdFistParams::from_query_pairs(&pairs))
    }
}

} // verus!
