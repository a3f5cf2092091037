//! Row filters and the stable sort over derived keys.
//!
//! `Filter` keeps or removes rows by comparing one column's cell (or a wiki
//! page sub-field of it) against a fixed value; `FilterSort` orders rows by
//! their derived string key; `FilterPetScan` keeps the rows an external
//! batch classifier returned — the network round trip happens outside, the
//! collection and the final selection are verified here.
use vstd::prelude::*;

use crate::data_cell::{
    cell_cmp_spec, cell_eq_spec, cell_wf, key_of, lex_cmp, str_cmp, sub_key_of, CellV, DataCell,
};
use crate::data_header::{col_index, ColumnHeaderType, ColumnHeaderV};
use crate::decimal::{is_decimal, is_decimal_str, CellOrd};
use crate::regexes::{regex_match_of, regex_valid, CompiledRegex};
use crate::table::{clone_row, row_view, rows_view, rows_wf, FlowError, Table};
use crate::text::{i64_of_digits, str_eq};
use crate::wiki_page::opt_str_view;

verus! {

/// How a filter compares a cell against its value.
#[derive(Clone, Copy, Debug, PartialEq, Eq, Structural)]
pub enum FilterOperator {
    Equal,
    Unequal,
    LargerThan,
    SmallerThan,
    LargerOrEqualThan,
    SmallerOrEqualThan,
    Regexp,
}

impl FilterOperator {
    /// Reads an operator from its serialized form: the variant name in
    /// double quotes.
    pub fn from_json_str(s: &str) -> (r: Option<FilterOperator>)
        ensures
            r is Some <==> exists|op: FilterOperator| s@ == #[trigger] spec_operator_json(op),
            r is Some ==> s@ == spec_operator_json(r.unwrap()),
    {
        let ops = [
            (FilterOperator::Equal, "\"Equal\""),
            (FilterOperator::Unequal, "\"Unequal\""),
            (FilterOperator::LargerThan, "\"LargerThan\""),
            (FilterOperator::SmallerThan, "\"SmallerThan\""),
            (FilterOperator::LargerOrEqualThan, "\"LargerOrEqualThan\""),
            (FilterOperator::SmallerOrEqualThan, "\"SmallerOrEqualThan\""),
            (FilterOperator::Regexp, "\"Regexp\""),
        ];
        if str_eq(s, ops[0].1) {
            proof {
                assert(s@ == spec_operator_json(FilterOperator::Equal));
            }
            return Some(FilterOperator::Equal);
        }
        if str_eq(s, ops[1].1) {
            proof {
                assert(s@ == spec_operator_json(FilterOperator::Unequal));
            }
            return Some(FilterOperator::Unequal);
        }
        if str_eq(s, ops[2].1) {
            proof {
                assert(s@ == spec_operator_json(FilterOperator::LargerThan));
            }
            return Some(FilterOperator::LargerThan);
        }
        if str_eq(s, ops[3].1) {
            proof {
                assert(s@ == spec_operator_json(FilterOperator::SmallerThan));
            }
            return Some(FilterOperator::SmallerThan);
        }
        if str_eq(s, ops[4].1) {
            proof {
                assert(s@ == spec_operator_json(FilterOperator::LargerOrEqualThan));
            }
            return Some(FilterOperator::LargerOrEqualThan);
        }
        if str_eq(s, ops[5].1) {
            proof {
                assert(s@ == spec_operator_json(FilterOperator::SmallerOrEqualThan));
            }
            return Some(FilterOperator::SmallerOrEqualThan);
        }
        if str_eq(s, ops[6].1) {
            proof {
                assert(s@ == spec_operator_json(FilterOperator::Regexp));
            }
            return Some(FilterOperator::Regexp);
        }
        proof {
            assert forall|op: FilterOperator| s@ != #[trigger] spec_operator_json(op) by {
                match op {
                    FilterOperator::Equal => assert(s@ != spec_operator_json(op)),
                    FilterOperator::Unequal => assert(s@ != spec_operator_json(op)),
                    FilterOperator::LargerThan => assert(s@ != spec_operator_json(op)),
                    FilterOperator::SmallerThan => assert(s@ != spec_operator_json(op)),
                    FilterOperator::LargerOrEqualThan => assert(s@ != spec_operator_json(op)),
                    FilterOperator::SmallerOrEqualThan => assert(s@ != spec_operator_json(op)),
                    FilterOperator::Regexp => assert(s@ != spec_operator_json(op)),
                }
            }
        }
        None
    }
}

/// The serialized form of an operator: its name in double quotes.
pub open spec fn spec_operator_json(op: FilterOperator) -> Seq<char> {
    match op {
        FilterOperator::Equal => "\"Equal\""@,
        FilterOperator::Unequal => "\"Unequal\""@,
        FilterOperator::LargerThan => "\"LargerThan\""@,
        FilterOperator::SmallerThan => "\"SmallerThan\""@,
        FilterOperator::LargerOrEqualThan => "\"LargerOrEqualThan\""@,
        FilterOperator::SmallerOrEqualThan => "\"SmallerOrEqualThan\""@,
        FilterOperator::Regexp => "\"Regexp\""@,
    }
}

/// A row filter: compare the cell of column `key` (reduced by `subkey` for
/// wiki pages) against `value`; keep matches, or remove them.
#[derive(Clone, Debug)]
pub struct Filter {
    pub key: String,
    pub subkey: Option<String>,
    pub operator: FilterOperator,
    pub value: String,
    pub remove_matching: bool,
}

/// The mathematical value of a `Filter`.
pub struct FilterV {
    pub key: Seq<char>,
    pub subkey: Option<Seq<char>>,
    pub operator: FilterOperator,
    pub value: Seq<char>,
    pub remove_matching: bool,
}

impl View for Filter {
    type V = FilterV;

    open spec fn view(&self) -> FilterV {
        FilterV {
            key: self.key@,
            subkey: opt_str_view(self.subkey),
            operator: self.operator,
            value: self.value@,
            remove_matching: self.remove_matching,
        }
    }
}

/// The cell a row presents to the filter: the key column's cell, reduced by
/// the sub-key when it is a wiki page, `Blank` when the row is short.
pub open spec fn extract_cell(row: Seq<CellV>, col: int, subkey: Option<Seq<char>>) -> CellV {
    if 0 <= col < row.len() {
        match row[col] {
            CellV::Page(_) => sub_key_of(row[col], subkey),
            _ => row[col],
        }
    } else {
        CellV::Blank
    }
}

/// The comparison cell the filter's value makes for a cell of this kind:
/// text against text, integers against the value read as an integer (0 when
/// unreadable), decimals against the value read as a numeral (0 when
/// unreadable), blanks against blank.
pub open spec fn comparator_cell(value: Seq<char>, cell: CellV) -> CellV {
    match cell {
        CellV::Text(_) => CellV::Text(value),
        CellV::Int(_) => CellV::Int(
            match i64_of_digits(value) {
                Some(v) => v,
                None => 0,
            },
        ),
        CellV::Float(_) => CellV::Float(
            if is_decimal(value) && value.len() <= usize::MAX / 4 {
                value
            } else {
                seq!['0']
            },
        ),
        _ => CellV::Blank,
    }
}

/// Whether the extracted cell matches under the operator. The comparison
/// asks how the value relates to the cell, so `LargerThan` means the cell is
/// larger than the value; incomparable cells match nothing but `Unequal`.
pub open spec fn op_matches(op: FilterOperator, value: Seq<char>, cell: CellV) -> bool {
    let vc = comparator_cell(value, cell);
    match op {
        FilterOperator::Equal => cell_eq_spec(vc, cell),
        FilterOperator::Unequal => !cell_eq_spec(vc, cell),
        FilterOperator::LargerThan => cell_cmp_spec(vc, cell) == Some(CellOrd::Less),
        FilterOperator::SmallerThan => cell_cmp_spec(vc, cell) == Some(CellOrd::Greater),
        FilterOperator::LargerOrEqualThan => cell_cmp_spec(vc, cell) == Some(CellOrd::Less)
            || cell_cmp_spec(vc, cell) == Some(CellOrd::Equal),
        FilterOperator::SmallerOrEqualThan => cell_cmp_spec(vc, cell) == Some(CellOrd::Greater)
            || cell_cmp_spec(vc, cell) == Some(CellOrd::Equal),
        FilterOperator::Regexp => regex_match_of(value, key_of(cell)),
    }
}

/// Whether the filter keeps a row of a table with this header.
pub open spec fn row_kept(f: FilterV, header: Seq<ColumnHeaderV>, row: Seq<CellV>) -> bool {
    op_matches(f.operator, f.value, extract_cell(row, col_index(header, f.key), f.subkey))
        == !f.remove_matching
}

/// The predicate the filter's output satisfies: kept, and not an empty row
/// (empty rows are never written to an artifact).
pub open spec fn row_emitted(f: FilterV, header: Seq<ColumnHeaderV>, row: Seq<CellV>) -> bool {
    row_kept(f, header, row) && row.len() > 0
}

impl Filter {
    fn matches_cell(&self, cell: &DataCell, re: &Option<CompiledRegex>) -> (r: bool)
        requires
            cell_wf(cell@),
            self@.operator == FilterOperator::Regexp ==> re is Some && re.unwrap().spec_pattern()
                == self@.value,
        ensures
            r == op_matches(self@.operator, self@.value, cell@),
    {
        match self.operator {
            FilterOperator::Regexp => {
                let k = cell.as_key();
                match re {
                    Some(re) => re.is_match(k.as_str()),
                    None => false,
                }
            },
            FilterOperator::Equal | FilterOperator::Unequal => {
                let vc = self.comparator_for(cell);
                let e = vc.eq_cell(cell);
                match self.operator {
                    FilterOperator::Equal => e,
                    _ => !e,
                }
            },
            _ => {
                let vc = self.comparator_for(cell);
                let c = vc.compare(cell);
                match self.operator {
                    FilterOperator::LargerThan => matches!(c, Some(CellOrd::Less)),
                    FilterOperator::SmallerThan => matches!(c, Some(CellOrd::Greater)),
                    FilterOperator::LargerOrEqualThan => matches!(
                        c,
                        Some(CellOrd::Less) | Some(CellOrd::Equal)
                    ),
                    _ => matches!(c, Some(CellOrd::Greater) | Some(CellOrd::Equal)),
                }
            },
        }
    }

    fn comparator_for(&self, cell: &DataCell) -> (r: DataCell)
        ensures
            r@ == comparator_cell(self@.value, cell@),
            cell_wf(r@),
    {
        match cell {
            DataCell::PlainText(_) => DataCell::PlainText(self.value.clone()),
            DataCell::Int(_) => match crate::text::parse_i64(self.value.as_str()) {
                Some(v) => DataCell::Int(v),
                None => DataCell::Int(0),
            },
            DataCell::Float(_) => {
                if is_decimal_str(self.value.as_str()) && self.value.as_str().unicode_len()
                    <= usize::MAX / 4 {
                    DataCell::Float(self.value.clone())
                } else {
                    let zero = "0".to_owned();
                    proof {
                        reveal_strlit("0");
                        assert(zero@ =~= seq!['0']);
                        assert(crate::text::all_digits(zero@)) by {
                            assert(zero@[0] == '0');
                        }
                        crate::text::lemma_find_char(zero@, '.');
                    }
                    DataCell::Float(zero)
                }
            },
            _ => DataCell::Blank,
        }
    }

    /// Filters the table: the output has the same header and exactly the
    /// rows the operator keeps, in order. Fails with `InvalidRegex` when the
    /// pattern of a `Regexp` filter does not compile, and with
    /// `MissingKeyColumn` when no column bears the filter's key.
    pub fn process(&self, input: &Table) -> (r: Result<Table, FlowError>)
        requires
            rows_wf(input@.rows),
        ensures
            match r {
                Ok(t) => {
                    &&& self@.operator == FilterOperator::Regexp ==> regex_valid(self@.value)
                    &&& col_index(input@.header, self@.key) >= 0
                    &&& t@.header == input@.header
                    &&& t@.rows == input@.rows.filter(
                        |row: Seq<CellV>| row_emitted(self@, input@.header, row),
                    )
                },
                Err(FlowError::InvalidRegex) => self@.operator == FilterOperator::Regexp
                    && !regex_valid(self@.value),
                Err(FlowError::MissingKeyColumn(k)) => {
                    &&& self@.operator == FilterOperator::Regexp ==> regex_valid(self@.value)
                    &&& col_index(input@.header, self@.key) == -1
                    &&& k@ == self@.key
                },
                Err(_) => false,
            },
    {
        let re: Option<CompiledRegex> = match self.operator {
            FilterOperator::Regexp => match CompiledRegex::new(self.value.as_str()) {
                Some(re) => Some(re),
                None => {
                    return Err(FlowError::InvalidRegex);
                },
            },
            _ => None,
        };
        let col = match input.header.get_col_num(self.key.as_str()) {
            Some(c) => c,
            None => {
                return Err(FlowError::MissingKeyColumn(self.key.clone()));
            },
        };
        let ghost pred = |row: Seq<CellV>| row_emitted(self@, input@.header, row);
        let mut out = Table::new(input.header.duplicate());
        let n = input.rows.len();
        let mut i: usize = 0;
        proof {
            assert(input@.rows.take(0).filter(pred) =~= Seq::<Seq<CellV>>::empty()) by {
                reveal(Seq::filter);
                assert(input@.rows.take(0) =~= Seq::<Seq<CellV>>::empty());
            }
        }
        while i < n
            invariant
                pred == (|row: Seq<CellV>| row_emitted(self@, input@.header, row)),
                n == input@.rows.len(),
                n == input.rows@.len(),
                i <= n,
                rows_wf(input@.rows),
                col as int == col_index(input@.header, self@.key),
                self@.operator == FilterOperator::Regexp ==> re is Some
                    && re.unwrap().spec_pattern() == self@.value,
                out@.header == input@.header,
                out@.rows == input@.rows.take(i as int).filter(pred),
            decreases n - i,
        {
            let row = &input.rows[i];
            let ghost rv = row_view(*row);
            proof {
                assert(input@.rows[i as int] == rv);
                assert(rows_wf(input@.rows));
            }
            let cell: DataCell = if col < row.len() {
                let c = &row[col];
                proof {
                    assert(rv[col as int] == row@[col as int]@);
                    assert(cell_wf(rv[col as int]));
                }
                match c {
                    DataCell::WikiPage(_) => c.to_sub_key(&self.subkey),
                    _ => c.duplicate(),
                }
            } else {
                DataCell::Blank
            };
            proof {
                assert(cell@ == extract_cell(rv, col as int, self@.subkey));
            }
            let m = self.matches_cell(&cell, &re);
            if m == !self.remove_matching {
                out.push_row(clone_row(row));
            }
            i = i + 1;
            proof {
                assert(input@.rows.take(i as int).drop_last() =~= input@.rows.take(i as int - 1));
                assert(input@.rows.take(i as int).last() == rv);
                reveal(Seq::filter);
            }
        }
        proof {
            assert(input@.rows.take(n as int) =~= input@.rows);
        }
        Ok(out)
    }
}

/// Removing the matching rows instead of keeping them.
pub open spec fn flip_remove(f: FilterV) -> FilterV {
    FilterV { remove_matching: !f.remove_matching, ..f }
}

/// The two halves a filter cuts a table into are disjoint and together make
/// up the table: a row (with its multiplicity) lands in the kept half or in
/// the removed half, never in both — provided the table has no empty rows,
/// which artifacts never hold.
pub proof fn lemma_filter_duality(f: FilterV, header: Seq<ColumnHeaderV>, rows: Seq<Seq<CellV>>)
    requires
        forall|i: int| 0 <= i < rows.len() ==> (#[trigger] rows[i]).len() > 0,
    ensures
        ({
            let kept = rows.filter(|row: Seq<CellV>| row_emitted(f, header, row));
            let removed = rows.filter(|row: Seq<CellV>| row_emitted(flip_remove(f), header, row));
            &&& kept.to_multiset().add(removed.to_multiset()) == rows.to_multiset()
            &&& forall|r: Seq<CellV>| !(kept.contains(r) && removed.contains(r))
        }),
{
    let p = |row: Seq<CellV>| row_emitted(f, header, row);
    let q = |row: Seq<CellV>| row_emitted(flip_remove(f), header, row);
    lemma_partition(rows, p, q);
    let kept = rows.filter(p);
    let removed = rows.filter(q);
    assert forall|r: Seq<CellV>| !(kept.contains(r) && removed.contains(r)) by {
        if kept.contains(r) && removed.contains(r) {
            let i = choose|i: int| 0 <= i < kept.len() && kept[i] == r;
            kept.lemma_filter_pred(p, i);
            let j = choose|j: int| 0 <= j < removed.len() && removed[j] == r;
            removed.lemma_filter_pred(q, j);
        }
    }
}

proof fn lemma_partition(
    rows: Seq<Seq<CellV>>,
    p: spec_fn(Seq<CellV>) -> bool,
    q: spec_fn(Seq<CellV>) -> bool,
)
    requires
        forall|i: int| 0 <= i < rows.len() ==> (q(#[trigger] rows[i]) <==> !p(rows[i])),
    ensures
        rows.filter(p).to_multiset().add(rows.filter(q).to_multiset()) == rows.to_multiset(),
    decreases rows.len(),
{
    broadcast use vstd::seq_lib::group_to_multiset_ensures;

    reveal(Seq::filter);
    if rows.len() == 0 {
        assert(rows.filter(p) =~= rows);
        assert(rows.filter(q) =~= rows);
        assert(rows.to_multiset().add(rows.to_multiset()) =~= rows.to_multiset());
    } else {
        let dl = rows.drop_last();
        assert(forall|i: int| 0 <= i < dl.len() ==> dl[i] == #[trigger] rows[i]);
        lemma_partition(dl, p, q);
        let x = rows.last();
        assert(rows =~= dl.push(x));
        if p(x) {
            assert(rows.filter(p) == dl.filter(p).push(x));
            assert(rows.filter(q) == dl.filter(q));
            assert(rows.filter(p).to_multiset() =~= dl.filter(p).to_multiset().insert(x));
            assert(rows.to_multiset() =~= dl.to_multiset().insert(x));
            assert(dl.filter(p).to_multiset().insert(x).add(dl.filter(q).to_multiset())
                =~= dl.filter(p).to_multiset().add(dl.filter(q).to_multiset()).insert(x));
        } else {
            assert(rows.filter(q) == dl.filter(q).push(x));
            assert(rows.filter(p) == dl.filter(p));
            assert(rows.filter(q).to_multiset() =~= dl.filter(q).to_multiset().insert(x));
            assert(rows.to_multiset() =~= dl.to_multiset().insert(x));
            assert(dl.filter(p).to_multiset().add(dl.filter(q).to_multiset().insert(x))
                =~= dl.filter(p).to_multiset().add(dl.filter(q).to_multiset()).insert(x));
        }
    }
}

} // verus!

// ___________________________________________________________________________
// Sorting by derived key.


verus! {

/// The string key a row sorts by: the key of its cell in the sort column,
/// or the empty string when the row is short.
pub open spec fn sort_key(row: Seq<CellV>, col: int) -> Seq<char> {
    if 0 <= col < row.len() {
        key_of(row[col])
    } else {
        Seq::empty()
    }
}

/// Key order: at or before, lexicographically.
pub open spec fn lex_leq(a: Seq<char>, b: Seq<char>) -> bool {
    lex_cmp(a, b) != CellOrd::Greater
}

/// `r` inserted into `s` before the first row with a key not below `r`'s:
/// the insertion step of a stable insertion sort.
pub open spec fn insert_row(r: Seq<CellV>, s: Seq<Seq<CellV>>, col: int) -> Seq<Seq<CellV>>
    decreases s.len(),
{
    if s.len() == 0 {
        seq![r]
    } else if lex_leq(sort_key(r, col), sort_key(s[0], col)) {
        seq![r] + s
    } else {
        seq![s[0]] + insert_row(r, s.drop_first(), col)
    }
}

/// Stable insertion sort of rows by their keys in column `col`.
pub open spec fn sort_rows(s: Seq<Seq<CellV>>, col: int) -> Seq<Seq<CellV>>
    decreases s.len(),
{
    if s.len() == 0 {
        s
    } else {
        insert_row(s[0], sort_rows(s.drop_first(), col), col)
    }
}

/// Rows in weakly ascending key order.
pub open spec fn sorted_rows(s: Seq<Seq<CellV>>, col: int) -> bool {
    forall|i: int, j: int|
        0 <= i < j < s.len() ==> lex_leq(sort_key(#[trigger] s[i], col), sort_key(#[trigger] s[j], col))
}

proof fn lemma_lex_flip(a: Seq<char>, b: Seq<char>)
    ensures
        lex_cmp(a, b) == CellOrd::Less <==> lex_cmp(b, a) == CellOrd::Greater,
        lex_cmp(a, b) == CellOrd::Equal <==> lex_cmp(b, a) == CellOrd::Equal,
    decreases a.len(),
{
    if a.len() != 0 && b.len() != 0 && (a[0] as u32) == (b[0] as u32) {
        lemma_lex_flip(a.drop_first(), b.drop_first());
    }
}

proof fn lemma_lex_trans(a: Seq<char>, b: Seq<char>, c: Seq<char>)
    requires
        lex_leq(a, b),
        lex_leq(b, c),
    ensures
        lex_leq(a, c),
    decreases a.len(),
{
    if a.len() == 0 {
        // The empty key is at or before everything.
    } else if b.len() == 0 {
        // a nonempty, b empty: a after b, contradicting the first premise.
        assert(false);
    } else if c.len() == 0 {
        assert(false);
    } else {
        if (a[0] as u32) == (b[0] as u32) && (b[0] as u32) == (c[0] as u32) {
            lemma_lex_trans(a.drop_first(), b.drop_first(), c.drop_first());
        }
    }
}

proof fn lemma_insert_sorted(r: Seq<CellV>, s: Seq<Seq<CellV>>, col: int)
    requires
        sorted_rows(s, col),
    ensures
        sorted_rows(insert_row(r, s, col), col),
        insert_row(r, s, col).len() == s.len() + 1,
    decreases s.len(),
{
    let out = insert_row(r, s, col);
    if s.len() == 0 {
    } else if lex_leq(sort_key(r, col), sort_key(s[0], col)) {
        assert(out =~= seq![r] + s);
        assert forall|i: int, j: int| 0 <= i < j < out.len() implies lex_leq(
            sort_key(#[trigger] out[i], col),
            sort_key(#[trigger] out[j], col),
        ) by {
            if i == 0 {
                if j == 1 {
                } else {
                    lemma_lex_trans(sort_key(r, col), sort_key(s[0], col), sort_key(s[j - 1], col));
                }
            }
        }
    } else {
        let d = s.drop_first();
        assert(forall|i: int| 0 <= i < d.len() ==> #[trigger] d[i] == s[i + 1]);
        lemma_insert_sorted(r, d, col);
        let rest = insert_row(r, d, col);
        assert(out =~= seq![s[0]] + rest);
        // The head is at or before r and at or before every row of d.
        lemma_lex_flip(sort_key(r, col), sort_key(s[0], col));
        assert(lex_leq(sort_key(s[0], col), sort_key(r, col)));
        assert forall|i: int, j: int| 0 <= i < j < out.len() implies lex_leq(
            sort_key(#[trigger] out[i], col),
            sort_key(#[trigger] out[j], col),
        ) by {
            if i == 0 {
                lemma_insert_member(r, d, col, j - 1);
            }
        }
    }
}

/// Every row of an insertion result is the inserted row or a row of `s`.
proof fn lemma_insert_member(r: Seq<CellV>, s: Seq<Seq<CellV>>, col: int, j: int)
    requires
        0 <= j < insert_row(r, s, col).len(),
    ensures
        insert_row(r, s, col)[j] == r || exists|k: int|
            0 <= k < s.len() && #[trigger] s[k] == insert_row(r, s, col)[j],
    decreases s.len(),
{
    let out = insert_row(r, s, col);
    if s.len() == 0 {
    } else if lex_leq(sort_key(r, col), sort_key(s[0], col)) {
        if j > 0 {
            assert(out[j] == s[j - 1]);
        }
    } else {
        if j == 0 {
            assert(out[0] == s[0]);
        } else {
            let d = s.drop_first();
            lemma_insert_member(r, d, col, j - 1);
            assert(out[j] == insert_row(r, d, col)[j - 1]);
            if insert_row(r, d, col)[j - 1] != r {
                let k = choose|k: int|
                    0 <= k < d.len() && #[trigger] d[k] == insert_row(r, d, col)[j - 1];
                assert(s[k + 1] == d[k]);
            }
        }
    }
}

/// The sort's output is in weakly ascending key order.
pub proof fn lemma_sort_sorted(s: Seq<Seq<CellV>>, col: int)
    ensures
        sorted_rows(sort_rows(s, col), col),
        sort_rows(s, col).len() == s.len(),
    decreases s.len(),
{
    if s.len() != 0 {
        lemma_sort_sorted(s.drop_first(), col);
        lemma_insert_sorted(s[0], sort_rows(s.drop_first(), col), col);
    }
}

/// Sorting a sorted table leaves it unchanged.
pub proof fn lemma_sort_of_sorted(s: Seq<Seq<CellV>>, col: int)
    requires
        sorted_rows(s, col),
    ensures
        sort_rows(s, col) == s,
    decreases s.len(),
{
    if s.len() != 0 {
        let d = s.drop_first();
        assert(forall|i: int| 0 <= i < d.len() ==> #[trigger] d[i] == s[i + 1]);
        lemma_sort_of_sorted(d, col);
        if d.len() == 0 {
            assert(sort_rows(s, col) =~= s);
        } else {
            assert(lex_leq(sort_key(s[0], col), sort_key(d[0], col)));
            assert(sort_rows(s, col) =~= seq![s[0]] + d);
            assert(seq![s[0]] + d =~= s);
        }
    }
}

/// Sorting twice with the same parameters yields the same result.
pub proof fn lemma_sort_idempotent(s: Seq<Seq<CellV>>, col: int)
    ensures
        sort_rows(sort_rows(s, col), col) == sort_rows(s, col),
{
    lemma_sort_sorted(s, col);
    lemma_sort_of_sorted(sort_rows(s, col), col);
}

/// The string key row `row` sorts by.
pub fn row_key(row: &Vec<DataCell>, col: usize) -> (r: String)
    ensures
        r@ == sort_key(row_view(*row), col as int),
{
    if col < row.len() {
        let k = row[col].as_key();
        proof {
            assert(row_view(*row)[col as int] == row@[col as int]@);
        }
        k
    } else {
        String::new()
    }
}

fn insert_row_exec(r: Vec<DataCell>, s: Vec<Vec<DataCell>>, col: usize) -> (out: Vec<
    Vec<DataCell>,
>)
    ensures
        rows_view(out) == insert_row(row_view(r), rows_view(s), col as int),
    decreases s@.len(),
{
    let ghost rv = row_view(r);
    let ghost sv = rows_view(s);
    let mut s = s;
    if s.len() == 0 {
        let mut out: Vec<Vec<DataCell>> = Vec::new();
        out.push(r);
        proof {
            assert(rows_view(out) =~= seq![rv]);
        }
        out
    } else {
        proof {
            assert(sv[0] == s@[0]@.map_values(|c: DataCell| c@));
        }
        let kr = row_key(&r, col);
        let ks = row_key(&s[0], col);
        let c = str_cmp(kr.as_str(), ks.as_str());
        if !matches!(c, CellOrd::Greater) {
            s.insert(0, r);
            proof {
                assert(rows_view(s) =~= seq![rv] + sv);
            }
            s
        } else {
            let head = s.remove(0);
            let ghost dv = rows_view(s);
            proof {
                assert(dv =~= sv.drop_first());
            }
            let mut rest = insert_row_exec(r, s, col);
            rest.insert(0, head);
            proof {
                assert(rows_view(rest) =~= seq![sv[0]] + insert_row(rv, sv.drop_first(), col as int));
            }
            rest
        }
    }
}

/// Rows sorted stably by their key in column `col`.
pub fn sort_rows_exec(s: Vec<Vec<DataCell>>, col: usize) -> (out: Vec<Vec<DataCell>>)
    ensures
        rows_view(out) == sort_rows(rows_view(s), col as int),
    decreases s@.len(),
{
    let ghost sv = rows_view(s);
    let mut s = s;
    if s.len() == 0 {
        s
    } else {
        let head = s.remove(0);
        proof {
            assert(rows_view(s) =~= sv.drop_first());
            assert(row_view(head) == sv[0]);
        }
        let rest = sort_rows_exec(s, col);
        insert_row_exec(head, rest, col)
    }
}

/// Rows in reverse order.
pub fn reverse_rows(s: Vec<Vec<DataCell>>) -> (out: Vec<Vec<DataCell>>)
    ensures
        rows_view(out) == rows_view(s).reverse(),
{
    let ghost sv = rows_view(s);
    let mut s = s;
    let mut out: Vec<Vec<DataCell>> = Vec::new();
    while s.len() > 0
        invariant
            rows_view(s) == sv.take(s@.len() as int),
            out@.len() + s@.len() == sv.len(),
            forall|i: int|
                0 <= i < out@.len() ==> #[trigger] rows_view(out)[i] == sv[sv.len() - 1 - i],
        decreases s@.len(),
    {
        let ghost before = rows_view(s);
        let x = match s.pop() {
            Some(x) => x,
            None => {
                proof {
                    assert(false);
                }
                Vec::new()
            },
        };
        proof {
            assert(rows_view(s) =~= before.drop_last());
            assert(before.drop_last() =~= sv.take(s@.len() as int));
            assert(row_view(x) == before.last());
            assert(before.last() == sv[s@.len() as int]);
        }
        let ghost prev = rows_view(out);
        out.push(x);
        proof {
            assert(rows_view(out) =~= prev.push(row_view(x)));
        }
    }
    proof {
        assert forall|i: int| 0 <= i < sv.len() implies rows_view(out)[i] == sv.reverse()[i] by {}
        assert(rows_view(out) =~= sv.reverse());
    }
    out
}

/// Sorting one artifact by the string key of one column.
#[derive(Clone, Debug)]
pub struct FilterSort {
    pub key: String,
    pub reverse: bool,
}

impl FilterSort {
    /// Sorts the table stably by the keys of column `key`, reversed when
    /// asked; empty rows are never written. Fails with `MissingKeyColumn`
    /// when no column bears the key.
    pub fn process(&self, input: &Table) -> (r: Result<Table, FlowError>)
        ensures
            match r {
                Ok(t) => {
                    &&& col_index(input@.header, self.key@) >= 0
                    &&& t@.header == input@.header
                    &&& t@.rows == ({
                        let sorted = sort_rows(input@.rows, col_index(input@.header, self.key@));
                        let ordered = if self.reverse {
                            sorted.reverse()
                        } else {
                            sorted
                        };
                        ordered.filter(|row: Seq<CellV>| row.len() > 0)
                    })
                },
                Err(FlowError::MissingKeyColumn(k)) => col_index(input@.header, self.key@) == -1
                    && k@ == self.key@,
                Err(_) => false,
            },
    {
        let col = match input.header.get_col_num(self.key.as_str()) {
            Some(c) => c,
            None => {
                return Err(FlowError::MissingKeyColumn(self.key.clone()));
            },
        };
        let mut rows: Vec<Vec<DataCell>> = Vec::new();
        let n = input.rows.len();
        let mut i: usize = 0;
        while i < n
            invariant
                n == input.rows@.len(),
                i <= n,
                rows_view(rows) == rows_view(input.rows).take(i as int),
            decreases n - i,
        {
            let ghost prev = rows_view(rows);
            let cr = clone_row(&input.rows[i]);
            proof {
                assert(row_view(cr) == rows_view(input.rows)[i as int]);
            }
            rows.push(cr);
            i = i + 1;
            proof {
                assert(rows_view(rows) =~= prev.push(row_view(cr)));
                assert(rows_view(rows) =~= rows_view(input.rows).take(i as int));
            }
        }
        proof {
            assert(rows_view(input.rows).take(n as int) =~= rows_view(input.rows));
        }
        let sorted = sort_rows_exec(rows, col);
        let ordered = if self.reverse {
            reverse_rows(sorted)
        } else {
            sorted
        };
        let ghost ov = rows_view(ordered);
        let ghost pred = |row: Seq<CellV>| row.len() > 0;
        let mut out = Table::new(input.header.duplicate());
        let m = ordered.len();
        let mut j: usize = 0;
        proof {
            reveal(Seq::filter);
            assert(ov.take(0).filter(pred) =~= Seq::<Seq<CellV>>::empty()) by {
                assert(ov.take(0) =~= Seq::<Seq<CellV>>::empty());
            }
        }
        while j < m
            invariant
                pred == (|row: Seq<CellV>| row.len() > 0),
                m == ordered@.len(),
                j <= m,
                ov == rows_view(ordered),
                out@.header == input@.header,
                out@.rows == ov.take(j as int).filter(pred),
            decreases m - j,
        {
            let row = clone_row(&ordered[j]);
            proof {
                assert(row_view(row) == ov[j as int]);
            }
            out.push_row(row);
            j = j + 1;
            proof {
                assert(ov.take(j as int).drop_last() =~= ov.take(j as int - 1));
                assert(ov.take(j as int).last() == ov[j as int - 1]);
                reveal(Seq::filter);
            }
        }
        proof {
            assert(ov.take(m as int) =~= ov);
        }
        Ok(out)
    }
}

} // verus!

// ___________________________________________________________________________
// The two-pass batch filter.

verus! {

/// The prefixed title a row shows in column `col`, when its cell there is a
/// wiki page that has one.
pub open spec fn row_title(row: Seq<CellV>, col: int) -> Option<Seq<char>> {
    if 0 <= col < row.len() {
        match row[col] {
            CellV::Page(w) => w.prefixed_title,
            _ => None,
        }
    } else {
        None
    }
}

/// The prefixed titles of all rows, in order.
pub open spec fn titles_of(rows: Seq<Seq<CellV>>, col: int) -> Seq<Seq<char>>
    decreases rows.len(),
{
    if rows.len() == 0 {
        Seq::empty()
    } else {
        titles_of(rows.drop_last(), col) + (match row_title(rows.last(), col) {
            Some(t) => seq![t],
            None => Seq::<Seq<char>>::empty(),
        })
    }
}

/// Whether the string list holds `t`.
pub open spec fn contains_str(list: Seq<Seq<char>>, t: Seq<char>) -> bool {
    exists|i: int| 0 <= i < list.len() && list[i] == t
}

fn contains_string(list: &Vec<String>, t: &str) -> (r: bool)
    ensures
        r == contains_str(list@.map_values(|s: String| s@), t@),
{
    let ghost lv = list@.map_values(|s: String| s@);
    let n = list.len();
    let mut i: usize = 0;
    while i < n
        invariant
            lv == list@.map_values(|s: String| s@),
            n == list@.len(),
            i <= n,
            forall|j: int| 0 <= j < i ==> lv[j] != t@,
        decreases n - i,
    {
        if str_eq(list[i].as_str(), t) {
            proof {
                assert(lv[i as int] == t@);
            }
            return true;
        }
        i = i + 1;
    }
    proof {
        if contains_str(lv, t@) {
            let w = choose|w: int| 0 <= w < lv.len() && lv[w] == t@;
            assert(lv[w] != t@);
        }
    }
    false
}

/// Keeping the rows an external batch classifier confirmed: the first pass
/// collects the titles to ask about, the second keeps the confirmed rows.
/// The network round trip between the passes happens outside the library.
#[derive(Clone, Debug)]
pub struct FilterPetScan {
    pub key: String,
    pub psid: u64,
}

impl FilterPetScan {
    /// First pass: the prefixed titles of the key column's wiki page cells,
    /// and the wiki the column's defaults name. Fails with
    /// `MissingKeyColumn` when no column bears the key, and with
    /// `BadParameter` when the column is not a wiki page column or names no
    /// wiki.
    pub fn pages_to_check(&self, input: &Table) -> (r: Result<(Vec<String>, String), FlowError>)
        ensures
            match r {
                Ok((pages, wiki)) => {
                    let col = col_index(input@.header, self.key@);
                    &&& col >= 0
                    &&& pages@.map_values(|s: String| s@) == titles_of(input@.rows, col)
                    &&& match input@.header[col].kind {
                        crate::data_header::ColKindV::WikiPage(w) => w.wiki == Some(wiki@),
                        _ => false,
                    }
                },
                Err(FlowError::MissingKeyColumn(k)) => col_index(input@.header, self.key@) == -1
                    && k@ == self.key@,
                Err(FlowError::BadParameter(k)) => {
                    let col = col_index(input@.header, self.key@);
                    &&& col >= 0
                    &&& k@ == self.key@
                    &&& match input@.header[col].kind {
                        crate::data_header::ColKindV::WikiPage(w) => w.wiki is None,
                        _ => true,
                    }
                },
                Err(_) => false,
            },
    {
        let col = match input.header.get_col_num(self.key.as_str()) {
            Some(c) => c,
            None => {
                return Err(FlowError::MissingKeyColumn(self.key.clone()));
            },
        };
        let wiki: String = match &input.header.columns[col].kind {
            ColumnHeaderType::WikiPage(w) => match &w.wiki {
                Some(wiki) => wiki.clone(),
                None => {
                    proof {
                        assert(input@.header[col as int] == input.header.columns@[col as int]@);
                    }
                    return Err(FlowError::BadParameter(self.key.clone()));
                },
            },
            _ => {
                proof {
                    assert(input@.header[col as int] == input.header.columns@[col as int]@);
                }
                return Err(FlowError::BadParameter(self.key.clone()));
            },
        };
        proof {
            assert(input@.header[col as int] == input.header.columns@[col as int]@);
        }
        let mut pages: Vec<String> = Vec::new();
        let n = input.rows.len();
        let mut i: usize = 0;
        proof {
            assert(titles_of(rows_view(input.rows).take(0), col as int) =~= Seq::<Seq<char>>::empty())
                by {
                assert(rows_view(input.rows).take(0) =~= Seq::<Seq<CellV>>::empty());
            }
            assert(pages@.map_values(|s: String| s@) =~= Seq::<Seq<char>>::empty());
        }
        while i < n
            invariant
                n == input.rows@.len(),
                i <= n,
                col as int == col_index(input@.header, self.key@),
                pages@.map_values(|s: String| s@) == titles_of(
                    rows_view(input.rows).take(i as int),
                    col as int,
                ),
            decreases n - i,
        {
            let row = &input.rows[i];
            let ghost rv = row_view(*row);
            let ghost prev = pages@.map_values(|s: String| s@);
            if col < row.len() {
                match &row[col] {
                    DataCell::WikiPage(w) => match &w.prefixed_title {
                        Some(t) => {
                            proof {
                                assert(rv[col as int] == row@[col as int]@);
                            }
                            pages.push(t.clone());
                            proof {
                                assert(pages@.map_values(|s: String| s@) =~= prev.push(t@));
                            }
                        },
                        None => {
                            proof {
                                assert(rv[col as int] == row@[col as int]@);
                            }
                        },
                    },
                    _ => {
                        proof {
                            assert(rv[col as int] == row@[col as int]@);
                        }
                    },
                }
            }
            i = i + 1;
            proof {
                assert(rows_view(input.rows).take(i as int).drop_last() =~= rows_view(
                    input.rows,
                ).take(i as int - 1));
                assert(rows_view(input.rows).take(i as int).last() == rv);
                assert(pages@.map_values(|s: String| s@) =~= titles_of(
                    rows_view(input.rows).take(i as int),
                    col as int,
                ));
            }
        }
        proof {
            assert(rows_view(input.rows).take(n as int) =~= rows_view(input.rows));
        }
        Ok((pages, wiki))
    }

    /// Second pass: keeps exactly the rows whose key-column cell is a wiki
    /// page whose prefixed title the classifier returned.
    pub fn keep_returned(&self, input: &Table, returned: &Vec<String>) -> (r: Result<
        Table,
        FlowError,
    >)
        ensures
            match r {
                Ok(t) => {
                    let col = col_index(input@.header, self.key@);
                    let ret = returned@.map_values(|s: String| s@);
                    &&& col >= 0
                    &&& t@.header == input@.header
                    &&& t@.rows == input@.rows.filter(
                        |row: Seq<CellV>|
                            match row_title(row, col) {
                                Some(title) => contains_str(ret, title),
                                None => false,
                            },
                    )
                },
                Err(FlowError::MissingKeyColumn(k)) => col_index(input@.header, self.key@) == -1
                    && k@ == self.key@,
                Err(_) => false,
            },
    {
        let col = match input.header.get_col_num(self.key.as_str()) {
            Some(c) => c,
            None => {
                return Err(FlowError::MissingKeyColumn(self.key.clone()));
            },
        };
        let ghost ret = returned@.map_values(|s: String| s@);
        let ghost pred = |row: Seq<CellV>|
            match row_title(row, col as int) {
                Some(title) => contains_str(ret, title),
                None => false,
            };
        let mut out = Table::new(input.header.duplicate());
        let n = input.rows.len();
        let mut i: usize = 0;
        proof {
            reveal(Seq::filter);
            assert(rows_view(input.rows).take(0).filter(pred) =~= Seq::<Seq<CellV>>::empty()) by {
                assert(rows_view(input.rows).take(0) =~= Seq::<Seq<CellV>>::empty());
            }
        }
        while i < n
            invariant
                pred == (|row: Seq<CellV>|
                    match row_title(row, col as int) {
                        Some(title) => contains_str(ret, title),
                        None => false,
                    }),
                ret == returned@.map_values(|s: String| s@),
                n == input.rows@.len(),
                i <= n,
                col as int == col_index(input@.header, self.key@),
                out@.header == input@.header,
                out@.rows == rows_view(input.rows).take(i as int).filter(pred),
            decreases n - i,
        {
            let row = &input.rows[i];
            let ghost rv = row_view(*row);
            let mut keep = false;
            if col < row.len() {
                match &row[col] {
                    DataCell::WikiPage(w) => match &w.prefixed_title {
                        Some(t) => {
                            proof {
                                assert(rv[col as int] == row@[col as int]@);
                            }
                            keep = contains_string(returned, t.as_str());
                        },
                        None => {
                            proof {
                                assert(rv[col as int] == row@[col as int]@);
                            }
                        },
                    },
                    _ => {
                        proof {
                            assert(rv[col as int] == row@[col as int]@);
                        }
                    },
                }
            }
            if keep {
                proof {
                    assert(rv.len() > 0);
                }
                out.push_row(clone_row(row));
            }
            i = i + 1;
            proof {
                assert(rows_view(input.rows).take(i as int).drop_last() =~= rows_view(
                    input.rows,
                ).take(i as int - 1));
                assert(rows_view(input.rows).take(i as int).last() == rv);
                reveal(Seq::filter);
            }
        }
        proof {
            assert(rows_view(input.rows).take(n as int) =~= rows_view(input.rows));
        }
        Ok(out)
    }
}

} // verus!
