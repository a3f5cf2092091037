//! Rendering a table as a wikitext document: a table header, one row per
//! artifact row, and per-cell markup that links wiki pages, embeds files and
//! uses item/property templates on Wikidata itself.
use vstd::prelude::*;

use crate::data_cell::{CellV, DataCell};
use crate::data_header::{ColKindV, ColumnHeaderType, DataHeader};
use crate::table::{FlowError, Table};
use crate::text::{
    find_char, i64_dec_digits, i64_to_string, lemma_find_char, find_char_in, replace_char,
    replace_char_seq, str_eq,
};
use crate::wiki_page::WikiPageV;

verus! {

/// Index of the last occurrence of `c` in `s`, or -1.
pub open spec fn rfind_char(s: Seq<char>, c: char) -> int
    decreases s.len(),
{
    if s.len() == 0 {
        -1
    } else if s.last() == c {
        s.len() - 1
    } else {
        rfind_char(s.drop_last(), c)
    }
}

proof fn lemma_rfind_char(s: Seq<char>, c: char)
    ensures
        rfind_char(s, c) == -1 ==> forall|i: int| 0 <= i < s.len() ==> s[i] != c,
        rfind_char(s, c) != -1 ==> 0 <= rfind_char(s, c) < s.len() && s[rfind_char(s, c)] == c
            && forall|i: int| rfind_char(s, c) < i < s.len() ==> s[i] != c,
    decreases s.len(),
{
    if s.len() != 0 && s.last() != c {
        let d = s.drop_last();
        lemma_rfind_char(d, c);
        assert(forall|i: int| 0 <= i < s.len() - 1 ==> s[i] == #[trigger] d[i]);
        if rfind_char(d, c) == -1 {
            assert forall|i: int| 0 <= i < s.len() implies s[i] != c by {
                if i < s.len() - 1 {
                    assert(s[i] == d[i]);
                }
            }
        } else {
            let k = rfind_char(d, c);
            assert(s[k] == d[k]);
            assert forall|i: int| k < i < s.len() implies s[i] != c by {
                if i < s.len() - 1 {
                    assert(s[i] == d[i]);
                }
            }
        }
    }
}

fn rfind_char_in(s: &str, c: char) -> (r: Option<usize>)
    ensures
        match r {
            Some(i) => rfind_char(s@, c) == i as int,
            None => rfind_char(s@, c) == -1,
        },
{
    let n = s.unicode_len();
    let mut i: usize = n;
    while i > 0
        invariant
            n == s@.len(),
            i <= n,
            forall|j: int| i <= j < n ==> s@[j] != c,
        decreases i,
    {
        i = i - 1;
        if s.get_char(i) == c {
            proof {
                lemma_rfind_char(s@, c);
            }
            return Some(i);
        }
    }
    proof {
        lemma_rfind_char(s@, c);
    }
    None
}

/// A display name for a file: underscores become spaces, any namespace
/// prefix and any file ending are cut away.
pub open spec fn pretty_filename_spec(title: Seq<char>) -> Seq<char> {
    let spaced = replace_char_seq(title, '_', ' ');
    let c = find_char(spaced, ':');
    let stem = if c == -1 {
        spaced
    } else {
        spaced.skip(c + 1)
    };
    let d = rfind_char(stem, '.');
    if d == -1 {
        stem
    } else {
        stem.take(d)
    }
}

/// The display name for a file title.
pub fn pretty_filename(title: &str) -> (r: String)
    ensures
        r@ == pretty_filename_spec(title@),
{
    let spaced = replace_char(title, '_', ' ');
    let sn = spaced.as_str().unicode_len();
    let stem = match find_char_in(spaced.as_str(), ':') {
        Some(c) => {
            proof {
                lemma_find_char(spaced@, ':');
            }
            spaced.as_str().substring_char(c + 1, sn)
        },
        None => spaced.as_str(),
    };
    let tn = stem.unicode_len();
    let r = match rfind_char_in(stem, '.') {
        Some(d) => {
            proof {
                lemma_rfind_char(stem@, '.');
            }
            stem.substring_char(0, d).to_owned()
        },
        None => stem.to_owned(),
    };
    proof {
        assert(r@ =~= pretty_filename_spec(title@));
    }
    r
}

/// The wikitext of one cell, or `None` where the cell cannot be rendered: a
/// wiki page cell must carry a prefixed title, stand in a wiki page column
/// and name a wiki (on the cell or the column).
pub open spec fn cell_wikitext(
    kind: ColKindV,
    cell: CellV,
    default_wiki: Option<Seq<char>>,
) -> Option<Seq<char>> {
    match cell {
        CellV::Text(s) => Some("||"@ + s + "\n"@),
        CellV::Int(i) => Some("||"@ + i64_dec_digits(i as int) + "\n"@),
        CellV::Float(f) => Some("||"@ + f + "\n"@),
        CellV::Blank => Some("||"@ + "\n"@),
        CellV::Page(wp) => match (wp.prefixed_title, kind) {
            (Some(title0), ColKindV::WikiPage(col_wp)) => {
                let wiki = match wp.wiki {
                    Some(w) => Some(w),
                    None => col_wp.wiki,
                };
                match wiki {
                    Some(wiki) => Some(page_wikitext(wp, title0, wiki, default_wiki)),
                    None => None,
                }
            },
            _ => None,
        },
    }
}

/// The wikitext of one wiki page cell that has a prefixed title and a wiki.
pub open spec fn page_wikitext(
    wp: WikiPageV,
    title0: Seq<char>,
    wiki: Seq<char>,
    default_wiki: Option<Seq<char>>,
) -> Seq<char> {
    let is_local = wp.wiki == default_wiki;
    if !is_local {
        if wiki == "commonswiki"@ && wp.ns_id == Some(6i64) {
            linked(title0 + "|thumbnail|"@ + pretty_filename_spec(title0), wp.ns_id)
        } else {
            linked(seq![':'] + wiki_link_prefix(wiki) + seq![':'] + title0, wp.ns_id)
        }
    } else if wp.ns_id == Some(0i64) && wiki == "wikidatawiki"@ && title0.len() >= 1 {
        "||{{Q|"@ + title0.skip(1) + "}}\n"@
    } else if wp.ns_id == Some(120i64) && wiki == "wikidatawiki"@ && title0.len() >= 1 {
        "||{{P|"@ + title0.skip(1) + "}}\n"@
    } else if wp.ns_id == Some(6i64) {
        linked(title0 + "|thumbnail|"@ + pretty_filename_spec(title0), wp.ns_id)
    } else if wp.ns_id == Some(14i64) {
        linked(seq![':'] + title0, wp.ns_id)
    } else {
        linked(title0, wp.ns_id)
    }
}

/// The interwiki prefix of a wiki id: the id with its last `wik…` suffix
/// cut, or the id itself when there is none.
pub open spec fn wiki_link_prefix(wiki: Seq<char>) -> Seq<char> {
    let i = last_wik_index(wiki);
    if i == -1 {
        wiki
    } else {
        wiki.take(i)
    }
}

/// The last index from which `wik` reads, leaving a non-empty prefix.
pub open spec fn last_wik_index(s: Seq<char>) -> int
    decreases s.len(),
{
    if s.len() < 4 {
        -1
    } else if s[s.len() - 3] == 'w' && s[s.len() - 2] == 'i' && s[s.len() - 1] == 'k' {
        s.len() - 3
    } else {
        last_wik_index(s.drop_last())
    }
}

/// A wiki link, with an unpiped title shown with spaces when it holds
/// underscores (file embeds excepted).
pub open spec fn linked(title: Seq<char>, ns_id: Option<i64>) -> Seq<char> {
    let link = if ns_id != Some(6i64) && find_char(title, '_') != -1 {
        let pretty = replace_char_seq(title, '_', ' ');
        let pretty2 = if title.len() > 0 && title[0] == ':' {
            pretty.skip(1)
        } else {
            pretty
        };
        title + seq!['|'] + pretty2
    } else {
        title
    };
    "||[["@ + link + "]]\n"@
}

/// Whether `wik` reads at position `j`.
pub open spec fn wik_at(s: Seq<char>, j: int) -> bool {
    0 <= j && j + 3 <= s.len() && s[j] == 'w' && s[j + 1] == 'i' && s[j + 2] == 'k'
}

pub proof fn lemma_last_wik_props(s: Seq<char>)
    ensures
        last_wik_index(s) == -1 ==> forall|j: int| 1 <= j && j + 3 <= s.len() ==> !wik_at(s, j),
        last_wik_index(s) != -1 ==> 1 <= last_wik_index(s) && last_wik_index(s) + 3 <= s.len()
            && wik_at(s, last_wik_index(s)) && forall|j: int|
            last_wik_index(s) < j && j + 3 <= s.len() ==> !wik_at(s, j),
    decreases s.len(),
{
    if s.len() < 4 {
    } else if s[s.len() - 3] == 'w' && s[s.len() - 2] == 'i' && s[s.len() - 1] == 'k' {
    } else {
        let d = s.drop_last();
        lemma_last_wik_props(d);
        assert(forall|j: int| 0 <= j < d.len() ==> d[j] == #[trigger] s[j]);
        assert forall|j: int|
            (if last_wik_index(s) == -1 {
                1 <= j
            } else {
                last_wik_index(s) < j
            }) && j + 3 <= s.len() implies !wik_at(s, j) by {
            if j + 3 <= s.len() - 1 {
                assert(!wik_at(d, j));
                assert(s[j] == d[j] && s[j + 1] == d[j + 1] && s[j + 2] == d[j + 2]);
            } else {
                // j + 3 == s.len(): this is the suffix the else branch ruled out.
                assert(j == s.len() - 3);
            }
        }
    }
}

fn exec_wiki_link_prefix(wiki: &str) -> (r: String)
    ensures
        r@ == wiki_link_prefix(wiki@),
{
    let n = wiki.unicode_len();
    if n >= 4 {
        let mut j: usize = n - 3;
        while j >= 1
            invariant
                n == wiki@.len(),
                n >= 4,
                1 <= j + 1,
                j <= n - 3,
                forall|x: int| j < x && x + 3 <= n ==> !wik_at(wiki@, x),
            decreases j,
        {
            if wiki.get_char(j) == 'w' && wiki.get_char(j + 1) == 'i' && wiki.get_char(j + 2)
                == 'k' {
                proof {
                    assert(wik_at(wiki@, j as int));
                    lemma_last_wik_props(wiki@);
                    if last_wik_index(wiki@) == -1 {
                        assert(!wik_at(wiki@, j as int));
                    } else if last_wik_index(wiki@) < j as int {
                        assert(!wik_at(wiki@, j as int));
                    } else if last_wik_index(wiki@) > j as int {
                        assert(!wik_at(wiki@, last_wik_index(wiki@)));
                    }
                    assert(last_wik_index(wiki@) == j as int);
                }
                return wiki.substring_char(0, j).to_owned();
            }
            j = j - 1;
        }
        proof {
            lemma_last_wik_props(wiki@);
            if last_wik_index(wiki@) != -1 {
                assert(!wik_at(wiki@, last_wik_index(wiki@)));
            }
        }
        wiki.to_owned()
    } else {
        proof {
            lemma_last_wik_props(wiki@);
        }
        wiki.to_owned()
    }
}


/// The wikitext link for a title.
fn linked_exec(title: &str, ns_id: Option<i64>) -> (r: String)
    ensures
        r@ == linked(title@, ns_id),
{
    let is_file = match ns_id {
        Some(v) => v == 6,
        None => false,
    };
    let has_underscore = match crate::text::find_char_in(title, '_') {
        Some(_) => true,
        None => false,
    };
    let mut out = "||[[".to_owned();
    if !is_file && has_underscore {
        let pretty = replace_char(title, '_', ' ');
        let n = title.unicode_len();
        let starts_colon = n > 0 && title.get_char(0) == ':';
        out.append(title);
        out.append("|");
        if starts_colon {
            out.append(pretty.as_str().substring_char(1, n));
        } else {
            out.append(pretty.as_str());
        }
        proof {
            reveal_strlit("|");
            assert("|"@ =~= seq!['|']);
        }
    } else {
        out.append(title);
    }
    out.append("]]
");
    proof {
        assert(out@ =~= linked(title@, ns_id));
    }
    out
}

fn opt_wiki_eq(a: &Option<String>, b: &Option<String>) -> (r: bool)
    ensures
        r == (crate::wiki_page::opt_str_view(*a) == crate::wiki_page::opt_str_view(*b)),
{
    match (a, b) {
        (Some(x), Some(y)) => str_eq(x.as_str(), y.as_str()),
        (None, None) => true,
        _ => false,
    }
}

/// Renders one cell as wikitext. Fails with `SourceDecode` where a wiki
/// page cell lacks its prefixed title, stands in a non-page column, or
/// names no wiki.
pub fn render_cell(
    col_kind: &ColumnHeaderType,
    cell: &DataCell,
    default_wiki: &Option<String>,
) -> (r: Result<String, FlowError>)
    ensures
        ({
            let expected = cell_wikitext(
                col_kind@,
                cell@,
                crate::wiki_page::opt_str_view(*default_wiki),
            );
            match r {
                Ok(s) => expected == Some(s@),
                Err(FlowError::SourceDecode(_)) => expected is None,
                Err(_) => false,
            }
        }),
{
    match cell {
        DataCell::PlainText(s) => {
            let mut out = "||".to_owned();
            out.append(s.as_str());
            out.append("\n");
            proof {
                assert(out@ =~= "||"@ + s@ + "\n"@);
            }
            Ok(out)
        },
        DataCell::Int(i) => {
            let mut out = "||".to_owned();
            let digits = i64_to_string(*i);
            out.append(digits.as_str());
            out.append("\n");
            proof {
                assert(out@ =~= "||"@ + i64_dec_digits(*i as int) + "\n"@);
            }
            Ok(out)
        },
        DataCell::Float(f) => {
            let mut out = "||".to_owned();
            out.append(f.as_str());
            out.append("\n");
            proof {
                assert(out@ =~= "||"@ + f@ + "\n"@);
            }
            Ok(out)
        },
        DataCell::Blank => {
            let mut out = "||".to_owned();
            out.append("\n");
            proof {
                assert(out@ =~= "||"@ + "\n"@);
            }
            Ok(out)
        },
        DataCell::WikiPage(wp) => {
            let title0 = match &wp.prefixed_title {
                Some(t) => t.clone(),
                None => {
                    return Err(
                        FlowError::SourceDecode("wiki page cell without prefixed title".to_owned()),
                    );
                },
            };
            let col_wp = match col_kind {
                ColumnHeaderType::WikiPage(w) => w,
                _ => {
                    return Err(
                        FlowError::SourceDecode(
                            "wiki page cell in a non-page column".to_owned(),
                        ),
                    );
                },
            };
            let wiki: String = match &wp.wiki {
                Some(w) => w.clone(),
                None => match &col_wp.wiki {
                    Some(w) => w.clone(),
                    None => {
                        return Err(
                            FlowError::SourceDecode("wiki page cell without a wiki".to_owned()),
                        );
                    },
                },
            };
            let is_local = opt_wiki_eq(&wp.wiki, default_wiki);
            let is_wikidata = str_eq(wiki.as_str(), "wikidatawiki");
            let n0 = title0.as_str().unicode_len();
            let ns = wp.ns_id;
            let out: String = if !is_local {
                let is_commons_file = str_eq(wiki.as_str(), "commonswiki") && matches!(
                    ns,
                    Some(6i64)
                );
                if is_commons_file {
                    let mut t = title0.clone();
                    t.append("|thumbnail|");
                    let pf = pretty_filename(title0.as_str());
                    t.append(pf.as_str());
                    proof {
                        assert(t@ =~= title0@ + "|thumbnail|"@ + pretty_filename_spec(title0@));
                    }
                    linked_exec(t.as_str(), ns)
                } else {
                    let mut t = ":".to_owned();
                    let prefix = exec_wiki_link_prefix(wiki.as_str());
                    t.append(prefix.as_str());
                    t.append(":");
                    t.append(title0.as_str());
                    proof {
                        reveal_strlit(":");
                        assert(":"@ =~= seq![':']);
                        assert(t@ =~= seq![':'] + wiki_link_prefix(wiki@) + seq![':'] + title0@);
                    }
                    linked_exec(t.as_str(), ns)
                }
            } else if matches!(ns, Some(0i64)) && is_wikidata && n0 >= 1 {
                let mut out = "||{{Q|".to_owned();
                out.append(title0.as_str().substring_char(1, n0));
                out.append("}}\n");
                proof {
                    assert(out@ =~= "||{{Q|"@ + title0@.skip(1) + "}}\n"@);
                }
                out
            } else if matches!(ns, Some(120i64)) && is_wikidata && n0 >= 1 {
                let mut out = "||{{P|".to_owned();
                out.append(title0.as_str().substring_char(1, n0));
                out.append("}}\n");
                proof {
                    assert(out@ =~= "||{{P|"@ + title0@.skip(1) + "}}\n"@);
                }
                out
            } else if matches!(ns, Some(6i64)) {
                let mut t = title0.clone();
                t.append("|thumbnail|");
                let pf = pretty_filename(title0.as_str());
                t.append(pf.as_str());
                proof {
                    assert(t@ =~= title0@ + "|thumbnail|"@ + pretty_filename_spec(title0@));
                }
                linked_exec(t.as_str(), ns)
            } else if matches!(ns, Some(14i64)) {
                let mut t = ":".to_owned();
                t.append(title0.as_str());
                proof {
                    reveal_strlit(":");
                    assert(":"@ =~= seq![':']);
                    assert(t@ =~= seq![':'] + title0@);
                }
                linked_exec(t.as_str(), ns)
            } else {
                linked_exec(title0.as_str(), ns)
            };
            Ok(out)
        },
    }
}

/// The table-header lines of the first `upto` columns.
pub open spec fn header_lines(cols: Seq<crate::data_header::ColumnHeaderV>, upto: int) -> Seq<
    char,
>
    decreases upto,
{
    if upto <= 0 {
        Seq::empty()
    } else {
        header_lines(cols, upto - 1) + "! "@ + replace_char_seq(cols[upto - 1].name, '_', ' ')
            + "\n"@
    }
}

/// The wikitext of the table header.
pub open spec fn header_wikitext(cols: Seq<crate::data_header::ColumnHeaderV>) -> Seq<char> {
    "{| class=\"wikitable\"\n"@ + header_lines(cols, cols.len() as int)
}

/// The wikitext of one row: a row separator, then every cell that has a
/// column, in order.
pub open spec fn row_cells_text(
    cols: Seq<crate::data_header::ColumnHeaderV>,
    row: Seq<CellV>,
    dw: Option<Seq<char>>,
    upto: int,
) -> Option<Seq<char>>
    decreases upto,
{
    if upto <= 0 {
        Some(Seq::empty())
    } else {
        match (row_cells_text(cols, row, dw, upto - 1), cell_wikitext(
            cols[upto - 1].kind,
            row[upto - 1],
            dw,
        )) {
            (Some(a), Some(b)) => Some(a + b),
            _ => None,
        }
    }
}

/// The wikitext of one row.
pub open spec fn row_wikitext(
    cols: Seq<crate::data_header::ColumnHeaderV>,
    row: Seq<CellV>,
    dw: Option<Seq<char>>,
) -> Option<Seq<char>> {
    let m = if row.len() < cols.len() {
        row.len() as int
    } else {
        cols.len() as int
    };
    match row_cells_text(cols, row, dw, m) {
        Some(cells) => Some("|--\n"@ + cells),
        None => None,
    }
}

/// The default wiki of a table: the first wiki a page column names.
pub open spec fn spec_default_wiki(cols: Seq<crate::data_header::ColumnHeaderV>) -> Option<
    Seq<char>,
>
    decreases cols.len(),
{
    if cols.len() == 0 {
        None
    } else {
        match cols[0].kind {
            ColKindV::WikiPage(w) => match w.wiki {
                Some(wk) => Some(wk),
                None => spec_default_wiki(cols.drop_first()),
            },
            _ => spec_default_wiki(cols.drop_first()),
        }
    }
}

/// The wikitext of the first `upto` rows.
pub open spec fn rows_wikitext(
    cols: Seq<crate::data_header::ColumnHeaderV>,
    rows: Seq<Seq<CellV>>,
    dw: Option<Seq<char>>,
    upto: int,
) -> Option<Seq<char>>
    decreases upto,
{
    if upto <= 0 {
        Some(Seq::empty())
    } else {
        match (rows_wikitext(cols, rows, dw, upto - 1), row_wikitext(cols, rows[upto - 1], dw)) {
            (Some(a), Some(b)) => Some(a + b),
            _ => None,
        }
    }
}

/// The wikitext of a whole table: header, rows, footer.
pub open spec fn table_wikitext(t: crate::table::TableV) -> Option<Seq<char>> {
    match rows_wikitext(t.header, t.rows, spec_default_wiki(t.header), t.rows.len() as int) {
        Some(rows) => Some(header_wikitext(t.header) + rows + "|}\n"@),
        None => None,
    }
}

/// Rendering a table to one wikitext document.
#[derive(Clone, Debug, Default)]
pub struct RendererWikitext {}

impl RendererWikitext {
    /// The display name for a file title, as `pretty_filename` gives it.
    pub fn pretty_filename(&self, title: &str) -> (r: String)
        ensures
            r@ == pretty_filename_spec(title@),
    {
        pretty_filename(title)
    }

    /// The first wiki a page column of the header names: links without a
    /// wiki of their own count as local to it.
    pub fn detect_default_wiki(&self, header: &DataHeader) -> (r: Option<String>)
        ensures
            crate::wiki_page::opt_str_view(r) == spec_default_wiki(header@),
    {
        let n = header.columns.len();
        let mut i: usize = 0;
        let ghost cols = header@;
        proof {
            assert(cols.skip(0) =~= cols);
        }
        while i < n
            invariant
                n == header@.len(),
                i <= n,
                cols == header@,
                spec_default_wiki(cols.skip(i as int)) == spec_default_wiki(cols),
            decreases n - i,
        {
            proof {
                assert(cols.skip(i as int)[0] == header@[i as int]);
                assert(header@[i as int] == header.columns@[i as int]@);
                assert(cols.skip(i as int).drop_first() =~= cols.skip(i as int + 1));
            }
            match &header.columns[i].kind {
                ColumnHeaderType::WikiPage(w) => match &w.wiki {
                    Some(wk) => {
                        return Some(wk.clone());
                    },
                    None => {},
                },
                _ => {},
            }
            i = i + 1;
        }
        proof {
            assert(cols.skip(n as int).len() == 0);
        }
        None
    }

    /// Renders the whole table: table header, one separator-plus-cells
    /// block per row, and the closing footer. Fails where a cell cannot be
    /// rendered.
    pub fn render(&self, table: &Table) -> (r: Result<String, FlowError>)
        ensures
            match r {
                Ok(s) => table_wikitext(table@) == Some(s@),
                Err(FlowError::SourceDecode(_)) => table_wikitext(table@) is None,
                Err(_) => false,
            },
    {
        let default_wiki = self.detect_default_wiki(&table.header);
        let ghost dw = crate::wiki_page::opt_str_view(default_wiki);
        let ghost cols = table@.header;
        // The header block.
        let mut out = "{| class=\"wikitable\"\n".to_owned();
        let n = table.header.columns.len();
        let mut i: usize = 0;
        while i < n
            invariant
                n == table@.header.len(),
                cols == table@.header,
                i <= n,
                out@ == "{| class=\"wikitable\"\n"@ + header_lines(cols, i as int),
            decreases n - i,
        {
            proof {
                assert(cols[i as int] == table.header.columns@[i as int]@);
            }
            out.append("! ");
            let name = replace_char(table.header.columns[i].name.as_str(), '_', ' ');
            out.append(name.as_str());
            out.append("\n");
            i = i + 1;
            proof {
                assert(out@ =~= "{| class=\"wikitable\"\n"@ + header_lines(cols, i as int));
            }
        }
        proof {
            assert(out@ =~= header_wikitext(cols));
        }
        // The rows.
        let nr = table.rows.len();
        let mut k: usize = 0;
        while k < nr
            invariant
                nr == table@.rows.len(),
                n == table@.header.len(),
                n == table.header.columns@.len(),
                cols == table@.header,
                dw == crate::wiki_page::opt_str_view(default_wiki),
                spec_default_wiki(cols) == dw,
                k <= nr,
                rows_wikitext(cols, table@.rows, dw, k as int) is Some,
                out@ == header_wikitext(cols) + rows_wikitext(cols, table@.rows, dw, k as int).unwrap(),
            decreases nr - k,
        {
            let row = &table.rows[k];
            let ghost rv = table@.rows[k as int];
            proof {
                assert(rv == crate::table::row_view(*row));
            }
            out.append("|--\n");
            let m = if row.len() < n {
                row.len()
            } else {
                n
            };
            let ghost mm = m as int;
            let mut c: usize = 0;
            while c < m
                invariant
                    m <= row@.len(),
                    m <= n,
                    n == table@.header.len(),
                    mm == m as int,
                    mm == if row@.len() < n {
                        row@.len() as int
                    } else {
                        n as int
                    },
                    k < nr,
                    nr == table@.rows.len(),
                    rv == table@.rows[k as int],
                    rows_wikitext(cols, table@.rows, dw, k as int) is Some,
                    spec_default_wiki(cols) == dw,
                    cols == table@.header,
                    dw == crate::wiki_page::opt_str_view(default_wiki),
                    rv == crate::table::row_view(*row),
                    rv.len() == row@.len(),
                    c <= m,
                    row_cells_text(cols, rv, dw, c as int) is Some,
                    out@ == header_wikitext(cols) + rows_wikitext(
                        cols,
                        table@.rows,
                        dw,
                        k as int,
                    ).unwrap() + "|--\n"@ + row_cells_text(cols, rv, dw, c as int).unwrap(),
                decreases m - c,
            {
                proof {
                    assert(cols[c as int] == table.header.columns@[c as int]@);
                    assert(rv[c as int] == row@[c as int]@);
                }
                let piece = match render_cell(
                    &table.header.columns[c].kind,
                    &row[c],
                    &default_wiki,
                ) {
                    Ok(p) => p,
                    Err(e) => {
                        proof {
                            assert(row_cells_text(cols, rv, dw, c as int + 1) is None);
                            lemma_cells_none(cols, rv, dw, c as int + 1, mm);
                            assert(mm == if rv.len() < cols.len() {
                                rv.len() as int
                            } else {
                                cols.len() as int
                            });
                            assert(row_wikitext(cols, rv, dw) is None);
                            assert(rows_wikitext(cols, table@.rows, dw, k as int + 1) is None);
                            lemma_rows_none(cols, table@.rows, dw, k as int + 1, nr as int);
                            assert(table_wikitext(table@) is None);
                        }
                        return Err(e);
                    },
                };
                out.append(piece.as_str());
                c = c + 1;
                proof {
                    assert(out@ =~= header_wikitext(cols) + rows_wikitext(
                        cols,
                        table@.rows,
                        dw,
                        k as int,
                    ).unwrap() + "|--\n"@ + row_cells_text(cols, rv, dw, c as int).unwrap());
                }
            }
            k = k + 1;
            proof {
                assert(row_wikitext(cols, rv, dw) == Some(
                    "|--\n"@ + row_cells_text(cols, rv, dw, mm).unwrap(),
                ));
                assert(rows_wikitext(cols, table@.rows, dw, k as int) is Some);
                assert(out@ =~= header_wikitext(cols) + rows_wikitext(
                    cols,
                    table@.rows,
                    dw,
                    k as int,
                ).unwrap());
            }
        }
        out.append("|}\n");
        proof {
            assert(out@ =~= header_wikitext(cols) + rows_wikitext(
                cols,
                table@.rows,
                dw,
                nr as int,
            ).unwrap() + "|}\n"@);
        }
        Ok(out)
    }
}

/// A row whose cell block fails at one column fails as a whole.
proof fn lemma_cells_none(
    cols: Seq<crate::data_header::ColumnHeaderV>,
    row: Seq<CellV>,
    dw: Option<Seq<char>>,
    from: int,
    upto: int,
)
    requires
        0 < from <= upto,
        row_cells_text(cols, row, dw, from) is None,
    ensures
        row_cells_text(cols, row, dw, upto) is None,
    decreases upto - from,
{
    if from < upto {
        lemma_cells_none(cols, row, dw, from + 1, upto);
    }
}

/// A table one of whose rows fails to render fails as a whole.
proof fn lemma_rows_none(
    cols: Seq<crate::data_header::ColumnHeaderV>,
    rows: Seq<Seq<CellV>>,
    dw: Option<Seq<char>>,
    from: int,
    upto: int,
)
    requires
        0 < from <= upto,
        rows_wikitext(cols, rows, dw, from) is None,
    ensures
        rows_wikitext(cols, rows, dw, upto) is None,
    decreases upto - from,
{
    if from < upto {
        lemma_rows_none(cols, rows, dw, from + 1, upto);
    }
}

} // verus!
