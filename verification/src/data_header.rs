//! Typed column headers: a column has a name and a kind, and a table header
//! is an ordered list of columns.
use vstd::prelude::*;

use crate::seqs::{find_index, lemma_find_index_is, lemma_find_index_none};
use crate::text::str_eq;
use crate::wiki_page::{WikiPage, WikiPageV};

verus! {

/// The kind of a column: plain text, a wiki page reference (with column-wide
/// defaults), a signed 64-bit integer, or a decimal number.
#[derive(Clone, Debug)]
pub enum ColumnHeaderType {
    PlainText,
    WikiPage(WikiPage),
    Int,
    Float,
}

/// The value of a `ColumnHeaderType`.
#[verifier::ext_equal]
pub enum ColKindV {
    PlainText,
    WikiPage(WikiPageV),
    Int,
    Float,
}

impl View for ColumnHeaderType {
    type V = ColKindV;

    open spec fn view(&self) -> ColKindV {
        match self {
            ColumnHeaderType::PlainText => ColKindV::PlainText,
            ColumnHeaderType::WikiPage(w) => ColKindV::WikiPage(w@),
            ColumnHeaderType::Int => ColKindV::Int,
            ColumnHeaderType::Float => ColKindV::Float,
        }
    }
}

/// One column: a name and a kind.
#[derive(Clone, Debug)]
pub struct ColumnHeader {
    pub name: String,
    pub kind: ColumnHeaderType,
}

/// The value of a `ColumnHeader`.
#[verifier::ext_equal]
pub struct ColumnHeaderV {
    pub name: Seq<char>,
    pub kind: ColKindV,
}

impl View for ColumnHeader {
    type V = ColumnHeaderV;

    open spec fn view(&self) -> ColumnHeaderV {
        ColumnHeaderV { name: self.name@, kind: self.kind@ }
    }
}

/// An ordered list of columns.
#[derive(Clone, Debug)]
pub struct DataHeader {
    pub columns: Vec<ColumnHeader>,
}

impl View for DataHeader {
    type V = Seq<ColumnHeaderV>;

    open spec fn view(&self) -> Seq<ColumnHeaderV> {
        self.columns@.map_values(|c: ColumnHeader| c@)
    }
}

impl Default for DataHeader {
    /// A header with no columns.
    fn default() -> (r: Self)
        ensures
            r@.len() == 0,
    {
        DataHeader { columns: Vec::new() }
    }
}

/// Two column kinds are the same when their variants agree; wiki page
/// defaults count as the page identity (wiki and prefixed title).
pub open spec fn col_kind_same(a: ColKindV, b: ColKindV) -> bool {
    match (a, b) {
        (ColKindV::PlainText, ColKindV::PlainText) => true,
        (ColKindV::WikiPage(x), ColKindV::WikiPage(y)) => x.wiki == y.wiki && x.prefixed_title
            == y.prefixed_title,
        (ColKindV::Int, ColKindV::Int) => true,
        (ColKindV::Float, ColKindV::Float) => true,
        _ => false,
    }
}

/// Two columns are the same when name and kind agree.
pub open spec fn col_same(a: ColumnHeaderV, b: ColumnHeaderV) -> bool {
    a.name == b.name && col_kind_same(a.kind, b.kind)
}

/// Two headers are the same when they are columnwise the same.
pub open spec fn header_same(a: Seq<ColumnHeaderV>, b: Seq<ColumnHeaderV>) -> bool {
    a.len() == b.len() && forall|i: int| 0 <= i < a.len() ==> col_same(#[trigger] a[i], b[i])
}

/// Index of the first column named `key`, or -1.
pub open spec fn col_index(columns: Seq<ColumnHeaderV>, key: Seq<char>) -> int {
    find_index(columns, |c: ColumnHeaderV| c.name == key)
}

fn opt_string_eq(a: &Option<String>, b: &Option<String>) -> (r: bool)
    ensures
        r == (crate::wiki_page::opt_str_view(*a) == crate::wiki_page::opt_str_view(*b)),
{
    match (a, b) {
        (Some(x), Some(y)) => str_eq(x.as_str(), y.as_str()),
        (None, None) => true,
        _ => false,
    }
}

/// Whether two column kinds agree, as `col_kind_same` says.
pub fn column_kind_eq(a: &ColumnHeaderType, b: &ColumnHeaderType) -> (r: bool)
    ensures
        r == col_kind_same(a@, b@),
{
    match (a, b) {
        (ColumnHeaderType::PlainText, ColumnHeaderType::PlainText) => true,
        (ColumnHeaderType::WikiPage(x), ColumnHeaderType::WikiPage(y)) => {
            let w = opt_string_eq(&x.wiki, &y.wiki);
            if !w {
                false
            } else {
                opt_string_eq(&x.prefixed_title, &y.prefixed_title)
            }
        },
        (ColumnHeaderType::Int, ColumnHeaderType::Int) => true,
        (ColumnHeaderType::Float, ColumnHeaderType::Float) => true,
        _ => false,
    }
}

/// Whether two headers agree columnwise, as `header_same` says.
pub fn data_header_eq(a: &DataHeader, b: &DataHeader) -> (r: bool)
    ensures
        r == header_same(a@, b@),
{
    let n = a.columns.len();
    if n != b.columns.len() {
        return false;
    }
    let mut i: usize = 0;
    while i < n
        invariant
            n == a@.len(),
            n == b@.len(),
            i <= n,
            forall|j: int| 0 <= j < i ==> col_same(#[trigger] a@[j], b@[j]),
        decreases n - i,
    {
        proof {
            assert(a@[i as int] == a.columns@[i as int]@);
            assert(b@[i as int] == b.columns@[i as int]@);
        }
        if !str_eq(a.columns[i].name.as_str(), b.columns[i].name.as_str()) {
            return false;
        }
        if !column_kind_eq(&a.columns[i].kind, &b.columns[i].kind) {
            return false;
        }
        i = i + 1;
    }
    true
}

impl ColumnHeader {
    /// A field-for-field copy of this column.
    pub fn duplicate(&self) -> (r: Self)
        ensures
            r@ == self@,
    {
        let kind = match &self.kind {
            ColumnHeaderType::PlainText => ColumnHeaderType::PlainText,
            ColumnHeaderType::WikiPage(w) => ColumnHeaderType::WikiPage(w.duplicate()),
            ColumnHeaderType::Int => ColumnHeaderType::Int,
            ColumnHeaderType::Float => ColumnHeaderType::Float,
        };
        ColumnHeader { name: self.name.clone(), kind }
    }
}

impl DataHeader {
    /// A column-for-column copy of this header.
    pub fn duplicate(&self) -> (r: Self)
        ensures
            r@ == self@,
    {
        let mut columns: Vec<ColumnHeader> = Vec::new();
        let n = self.columns.len();
        let mut i: usize = 0;
        while i < n
            invariant
                n == self.columns@.len(),
                i <= n,
                columns@.len() == i,
                forall|j: int| 0 <= j < i ==> #[trigger] columns@[j]@ == self@[j],
            decreases n - i,
        {
            columns.push(self.columns[i].duplicate());
            i = i + 1;
        }
        let r = DataHeader { columns };
        proof {
            assert forall|j: int| 0 <= j < n implies r@[j] == self@[j] by {
                assert(r@[j] == columns@[j]@);
            }
            assert(r@ =~= self@);
        }
        r
    }

    /// Index of the first column named `key`, if any.
    pub fn get_col_num(&self, key: &str) -> (r: Option<usize>)
        ensures
            match r {
                Some(i) => col_index(self@, key@) == i as int && i < self@.len(),
                None => col_index(self@, key@) == -1,
            },
    {
        let ghost p = |c: ColumnHeaderV| c.name == key@;
        let n = self.columns.len();
        let mut i: usize = 0;
        while i < n
            invariant
                p == (|c: ColumnHeaderV| c.name == key@),
                n == self@.len(),
                i <= n,
                forall|j: int| 0 <= j < i ==> !p(#[trigger] self@[j]),
            decreases n - i,
    {
            proof {
                assert(self@[i as int].name == self.columns@[i as int].name@);
            }
            if str_eq(self.columns[i].name.as_str(), key) {
                proof {
                    lemma_find_index_is(self@, p, i as int);
                }
                return Some(i);
            }
            i = i + 1;
        }
        proof {
            lemma_find_index_none(self@, p);
        }
        None
    }

    /// Appends the columns of `other` to this header.
    pub fn add_header(&mut self, other: DataHeader)
        ensures
            final (self)@ == old(self)@ + other@,
    {
        let ghost ov = other@;
        let mut incoming = other;
        self.columns.append(&mut incoming.columns);
        proof {
            assert(self@ =~= old(self)@ + ov);
        }
    }
}

} // verus!
