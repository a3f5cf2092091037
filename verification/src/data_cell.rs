//! Typed cells: the tagged values that fill a table, their canonical string
//! keys, their ordering, and their construction from raw source values.
//!
//! A `Float` cell carries its decimal text and is compared by exact numeric
//! value (see `decimal`); scientific notation is not part of the numeral
//! grammar and is normalised away by callers before a cell is built.
use vstd::prelude::*;

use crate::data_header::{ColKindV, ColumnHeader, ColumnHeaderType};
use crate::decimal::{
    compare_decimals, dec_cmp_spec, is_decimal, is_decimal_str, CellOrd,
};
use crate::site::SiteTable;
use crate::text::{
    all_digits, dec_digits, i64_dec_digits, i64_to_string, lemma_dec_digits_are_digits,
    lemma_find_char, find_char, parse_i64, str_eq,
};
use crate::wiki_page::{fill_missing_spec, WikiPage, WikiPageV};

verus! {

/// One cell of a table row.
#[derive(Clone, Debug)]
pub enum DataCell {
    PlainText(String),
    WikiPage(WikiPage),
    Int(i64),
    Float(String),
    Blank,
}

/// The mathematical value of a cell.
#[verifier::ext_equal]
pub enum CellV {
    Text(Seq<char>),
    Page(WikiPageV),
    Int(i64),
    Float(Seq<char>),
    Blank,
}

impl View for DataCell {
    type V = CellV;

    open spec fn view(&self) -> CellV {
        match self {
            DataCell::PlainText(s) => CellV::Text(s@),
            DataCell::WikiPage(w) => CellV::Page(w@),
            DataCell::Int(i) => CellV::Int(*i),
            DataCell::Float(s) => CellV::Float(s@),
            DataCell::Blank => CellV::Blank,
        }
    }
}

/// A well-formed cell: a `Float` cell holds a decimal numeral of sane size.
pub open spec fn cell_wf(c: CellV) -> bool {
    match c {
        CellV::Float(s) => is_decimal(s) && s.len() <= usize::MAX / 4,
        _ => true,
    }
}

/// The canonical string key of a cell: wiki pages render as
/// `wiki::prefixed_title` (with `ns_prefix:title` standing in for a missing
/// prefixed title), numbers as their decimal text, blanks as the empty
/// string.
pub open spec fn key_of(c: CellV) -> Seq<char> {
    match c {
        CellV::Text(s) => s,
        CellV::Page(w) => {
            let wiki = match w.wiki {
                Some(x) => x,
                None => Seq::empty(),
            };
            let fullname = match w.prefixed_title {
                Some(p) => p,
                None => {
                    let prefix = match w.ns_prefix {
                        Some(x) => x,
                        None => Seq::empty(),
                    };
                    let title = match w.title {
                        Some(x) => x,
                        None => Seq::empty(),
                    };
                    prefix + seq![':'] + title
                },
            };
            wiki + seq![':', ':'] + fullname
        },
        CellV::Int(i) => i64_dec_digits(i as int),
        CellV::Float(s) => s,
        CellV::Blank => Seq::empty(),
    }
}

/// The plain cell a wiki page cell reduces to under a sub-key; anything else
/// reduces to `Blank`.
pub open spec fn sub_key_of(c: CellV, subkey: Option<Seq<char>>) -> CellV {
    match c {
        CellV::Page(w) => match subkey {
            Some(k) => {
                if k == "title"@ {
                    match w.title {
                        Some(t) => CellV::Text(t),
                        None => CellV::Blank,
                    }
                } else if k == "prefixed_title"@ {
                    match w.prefixed_title {
                        Some(t) => CellV::Text(t),
                        None => CellV::Blank,
                    }
                } else if k == "ns_prefix"@ {
                    match w.ns_prefix {
                        Some(t) => CellV::Text(t),
                        None => CellV::Blank,
                    }
                } else if k == "wiki"@ {
                    match w.wiki {
                        Some(t) => CellV::Text(t),
                        None => CellV::Blank,
                    }
                } else if k == "ns_id"@ {
                    match w.ns_id {
                        Some(i) => CellV::Int(i),
                        None => CellV::Blank,
                    }
                } else if k == "page_id"@ {
                    match w.page_id {
                        Some(i) => CellV::Int(i),
                        None => CellV::Blank,
                    }
                } else {
                    CellV::Blank
                }
            },
            None => CellV::Blank,
        },
        _ => CellV::Blank,
    }
}

/// Lexicographic order on character sequences, by code point (the order
/// `str` comparison gives).
pub open spec fn lex_cmp(x: Seq<char>, y: Seq<char>) -> CellOrd
    decreases x.len(),
{
    if x.len() == 0 && y.len() == 0 {
        CellOrd::Equal
    } else if x.len() == 0 {
        CellOrd::Less
    } else if y.len() == 0 {
        CellOrd::Greater
    } else if (x[0] as u32) < (y[0] as u32) {
        CellOrd::Less
    } else if (x[0] as u32) > (y[0] as u32) {
        CellOrd::Greater
    } else {
        lex_cmp(x.drop_first(), y.drop_first())
    }
}

proof fn lemma_lex_skip(x: Seq<char>, y: Seq<char>, i: int)
    requires
        0 <= i <= x.len(),
        i <= y.len(),
        x.take(i) == y.take(i),
    ensures
        lex_cmp(x, y) == lex_cmp(x.skip(i), y.skip(i)),
    decreases i,
{
    if i > 0 {
        assert(x.take(i)[0] == x[0]);
        assert(y.take(i)[0] == y[0]);
        assert(x.take(i).drop_first() =~= x.drop_first().take(i - 1));
        assert(y.take(i).drop_first() =~= y.drop_first().take(i - 1));
        lemma_lex_skip(x.drop_first(), y.drop_first(), i - 1);
        assert(x.drop_first().skip(i - 1) =~= x.skip(i));
        assert(y.drop_first().skip(i - 1) =~= y.skip(i));
    } else {
        assert(x.skip(0) =~= x);
        assert(y.skip(0) =~= y);
    }
}

/// Lexicographic comparison of two strings, by code point.
pub fn str_cmp(a: &str, b: &str) -> (r: CellOrd)
    ensures
        r == lex_cmp(a@, b@),
{
    let na = a.unicode_len();
    let nb = b.unicode_len();
    let n = if na < nb {
        na
    } else {
        nb
    };
    let mut i: usize = 0;
    while i < n
        invariant
            na == a@.len(),
            nb == b@.len(),
            n == if na < nb {
                na as int
            } else {
                nb as int
            },
            i <= n,
            a@.take(i as int) == b@.take(i as int),
        decreases n - i,
    {
        let ca = a.get_char(i);
        let cb = b.get_char(i);
        if (ca as u32) < (cb as u32) {
            proof {
                lemma_lex_skip(a@, b@, i as int);
                assert(a@.skip(i as int)[0] == ca);
                assert(b@.skip(i as int)[0] == cb);
            }
            return CellOrd::Less;
        }
        if (ca as u32) > (cb as u32) {
            proof {
                lemma_lex_skip(a@, b@, i as int);
                assert(a@.skip(i as int)[0] == ca);
                assert(b@.skip(i as int)[0] == cb);
            }
            return CellOrd::Greater;
        }
        proof {
            assert(ca == cb);
            assert(a@.take(i as int + 1) =~= b@.take(i as int + 1));
        }
        i = i + 1;
    }
    proof {
        lemma_lex_skip(a@, b@, n as int);
    }
    if na < nb {
        proof {
            assert(a@.skip(n as int).len() == 0);
            assert(b@.skip(n as int).len() > 0);
        }
        CellOrd::Less
    } else if na > nb {
        CellOrd::Greater
    } else {
        CellOrd::Equal
    }
}

/// The decimal text of an integer is a well-formed numeral whose scaled
/// value is the integer itself.
pub proof fn lemma_int_as_decimal(i: i64)
    ensures
        is_decimal(i64_dec_digits(i as int)),
        i64_dec_digits(i as int).len() <= usize::MAX / 4,
        crate::decimal::dec_num(i64_dec_digits(i as int)) == i as int,
        crate::decimal::dec_scale(i64_dec_digits(i as int)) == 0,
{
    let s = i64_dec_digits(i as int);
    let m: nat = if i < 0 {
        (-(i as int)) as nat
    } else {
        (i as int) as nat
    };
    lemma_dec_digits_are_digits(m);
    lemma_no_dot(dec_digits(m));
    lemma_dec_digits_len(m);
    lemma_dec_digits_value(m);
    assert(crate::decimal::pow10(0nat) == 1);
    if i < 0 {
        assert(s =~= seq!['-'] + dec_digits(m));
        assert(s[0] == '-');
        assert(crate::decimal::dec_neg(s));
        assert(s.drop_first() =~= dec_digits(m));
        assert(crate::decimal::dec_int_part(s) == dec_digits(m));
        assert(crate::decimal::dec_frac_part(s) =~= Seq::<char>::empty());
        assert(crate::decimal::dec_mag(s) == crate::text::digits_val(dec_digits(m)) * 1 + 0);
        assert(crate::decimal::dec_mag(s) == m);
    } else {
        assert(s =~= dec_digits(m));
        assert('0' <= s[0] <= '9');
        assert(!crate::decimal::dec_neg(s));
        assert(crate::decimal::dec_int_part(s) == dec_digits(m));
        assert(crate::decimal::dec_frac_part(s) =~= Seq::<char>::empty());
        assert(crate::decimal::dec_mag(s) == crate::text::digits_val(dec_digits(m)) * 1 + 0);
        assert(crate::decimal::dec_mag(s) == m);
    }
}

proof fn lemma_no_dot(s: Seq<char>)
    requires
        all_digits(s),
    ensures
        find_char(s, '.') == -1,
{
    lemma_find_char(s, '.');
    if find_char(s, '.') != -1 {
        assert('0' <= s[find_char(s, '.')] <= '9');
    }
}

proof fn lemma_dec_digits_len(n: nat)
    requires
        n <= 18446744073709551616,
    ensures
        dec_digits(n).len() <= 20,
{
    // 64-bit magnitudes have at most 20 digits; the recursion divides by 10.
    assert(pow10_nat(20) == 100000000000000000000) by {
        reveal_with_fuel(crate::decimal::pow10, 21);
    }
    lemma_dec_digits_len_rec(n, 19);
}

proof fn lemma_dec_digits_len_rec(n: nat, fuel: nat)
    requires
        n < pow10_nat(fuel + 1),
    ensures
        dec_digits(n).len() <= fuel + 1,
    decreases fuel,
{
    if n < 10 {
        assert(dec_digits(n).len() == 1);
    } else if fuel == 0 {
        assert(pow10_nat(1) == 10) by {
            reveal_with_fuel(crate::decimal::pow10, 2);
        }
        assert(false);
    } else {
        lemma_pow10_nat_div(n, fuel);
        lemma_dec_digits_len_rec(n / 10, (fuel - 1) as nat);
        assert(dec_digits(n).len() == dec_digits(n / 10).len() + 1);
    }
}

spec fn pow10_nat(n: nat) -> nat {
    crate::decimal::pow10(n)
}

proof fn lemma_pow10_nat_div(n: nat, fuel: nat)
    requires
        fuel > 0,
        n < pow10_nat(fuel + 1),
    ensures
        n / 10 < pow10_nat(fuel),
{
    assert(pow10_nat(fuel + 1) == 10 * pow10_nat(fuel));
    assert(n / 10 < pow10_nat(fuel)) by (nonlinear_arith)
        requires
            n < 10 * pow10_nat(fuel),
    ;
}

proof fn lemma_dec_digits_value(n: nat)
    ensures
        crate::text::digits_val(dec_digits(n)) == n,
    decreases n,
{
    if n < 10 {
        assert(dec_digits(n) =~= seq![crate::text::digit_char(n)]);
        assert(dec_digits(n).drop_last() =~= Seq::<char>::empty());
        assert(crate::text::digits_val(Seq::<char>::empty()) == 0);
        assert(dec_digits(n).last() == crate::text::digit_char(n));
        assert(crate::text::digits_val(dec_digits(n)) == crate::text::digits_val(
            Seq::<char>::empty(),
        ) * 10 + crate::text::digit_val(crate::text::digit_char(n)));
        assert(crate::text::digit_val(crate::text::digit_char(n)) == n);
    } else {
        lemma_dec_digits_value(n / 10);
        assert(dec_digits(n).drop_last() =~= dec_digits(n / 10));
        assert(dec_digits(n).last() == crate::text::digit_char(n % 10));
        assert(crate::text::digit_val(crate::text::digit_char(n % 10)) == n % 10);
        assert((n / 10) * 10 + n % 10 == n);
    }
}

/// How two cells compare: blanks sort first, like kinds compare naturally,
/// integers and decimals compare numerically across kinds, and anything else
/// is incomparable.
pub open spec fn cell_cmp_spec(a: CellV, b: CellV) -> Option<CellOrd> {
    match (a, b) {
        (CellV::Blank, CellV::Blank) => Some(CellOrd::Equal),
        (CellV::Blank, _) => Some(CellOrd::Less),
        (_, CellV::Blank) => Some(CellOrd::Greater),
        (CellV::Text(x), CellV::Text(y)) => Some(lex_cmp(x, y)),
        (CellV::Int(x), CellV::Int(y)) => Some(
            if x < y {
                CellOrd::Less
            } else if x == y {
                CellOrd::Equal
            } else {
                CellOrd::Greater
            },
        ),
        (CellV::Int(x), CellV::Float(y)) => Some(dec_cmp_spec(i64_dec_digits(x as int), y)),
        (CellV::Float(x), CellV::Int(y)) => Some(dec_cmp_spec(x, i64_dec_digits(y as int))),
        (CellV::Float(x), CellV::Float(y)) => Some(dec_cmp_spec(x, y)),
        _ => None,
    }
}

/// Whether two cells hold the same value: pages compare by identity (wiki
/// and prefixed title), decimals by numeric value, blanks equal blanks.
pub open spec fn cell_eq_spec(a: CellV, b: CellV) -> bool {
    match (a, b) {
        (CellV::Text(x), CellV::Text(y)) => x == y,
        (CellV::Page(x), CellV::Page(y)) => x.wiki == y.wiki && x.prefixed_title
            == y.prefixed_title,
        (CellV::Int(x), CellV::Int(y)) => x == y,
        (CellV::Float(x), CellV::Float(y)) => dec_cmp_spec(x, y) == CellOrd::Equal,
        (CellV::Blank, CellV::Blank) => true,
        _ => false,
    }
}

impl DataCell {
    /// A value-for-value copy of this cell.
    pub fn duplicate(&self) -> (r: DataCell)
        ensures
            r@ == self@,
    {
        match self {
            DataCell::PlainText(s) => DataCell::PlainText(s.clone()),
            DataCell::WikiPage(w) => DataCell::WikiPage(w.duplicate()),
            DataCell::Int(i) => DataCell::Int(*i),
            DataCell::Float(s) => DataCell::Float(s.clone()),
            DataCell::Blank => DataCell::Blank,
        }
    }

    /// The canonical string key of this cell.
    pub fn as_key(&self) -> (r: String)
        ensures
            r@ == key_of(self@),
    {
        match self {
            DataCell::PlainText(s) => s.clone(),
            DataCell::WikiPage(wp) => {
                let mut k = match &wp.wiki {
                    Some(w) => w.clone(),
                    None => String::new(),
                };
                k.append("::");
                proof {
                    reveal_strlit("::");
                    assert("::"@ =~= seq![':', ':']);
                }
                match &wp.prefixed_title {
                    Some(pt) => {
                        k.append(pt.as_str());
                    },
                    None => {
                        match &wp.ns_prefix {
                            Some(p) => {
                                k.append(p.as_str());
                            },
                            None => {},
                        }
                        k.append(":");
                        proof {
                            reveal_strlit(":");
                            assert(":"@ =~= seq![':']);
                        }
                        match &wp.title {
                            Some(t) => {
                                k.append(t.as_str());
                            },
                            None => {},
                        }
                    },
                }
                proof {
                    assert(k@ =~= key_of(self@));
                }
                k
            },
            DataCell::Int(i) => i64_to_string(*i),
            DataCell::Float(s) => s.clone(),
            DataCell::Blank => String::new(),
        }
    }

    /// Reduces a wiki page cell to the plain cell a sub-key names; any other
    /// cell, or an unknown sub-key, reduces to `Blank`.
    pub fn to_sub_key(&self, subkey: &Option<String>) -> (r: DataCell)
        ensures
            r@ == sub_key_of(self@, crate::wiki_page::opt_str_view(*subkey)),
    {
        let wp = match self {
            DataCell::WikiPage(wp) => wp,
            _ => {
                return DataCell::Blank;
            },
        };
        let sk = match subkey {
            Some(sk) => sk,
            None => {
                return DataCell::Blank;
            },
        };
        if str_eq(sk.as_str(), "title") {
            match &wp.title {
                Some(t) => DataCell::PlainText(t.clone()),
                None => DataCell::Blank,
            }
        } else if str_eq(sk.as_str(), "prefixed_title") {
            match &wp.prefixed_title {
                Some(t) => DataCell::PlainText(t.clone()),
                None => DataCell::Blank,
            }
        } else if str_eq(sk.as_str(), "ns_prefix") {
            match &wp.ns_prefix {
                Some(t) => DataCell::PlainText(t.clone()),
                None => DataCell::Blank,
            }
        } else if str_eq(sk.as_str(), "wiki") {
            match &wp.wiki {
                Some(t) => DataCell::PlainText(t.clone()),
                None => DataCell::Blank,
            }
        } else if str_eq(sk.as_str(), "ns_id") {
            match wp.ns_id {
                Some(i) => DataCell::Int(i),
                None => DataCell::Blank,
            }
        } else if str_eq(sk.as_str(), "page_id") {
            match wp.page_id {
                Some(i) => DataCell::Int(i),
                None => DataCell::Blank,
            }
        } else {
            DataCell::Blank
        }
    }

    /// Compares two cells, as `cell_cmp_spec` says.
    pub fn compare(&self, other: &DataCell) -> (r: Option<CellOrd>)
        requires
            cell_wf(self@),
            cell_wf(other@),
        ensures
            r == cell_cmp_spec(self@, other@),
    {
        match (self, other) {
            (DataCell::Blank, DataCell::Blank) => Some(CellOrd::Equal),
            (DataCell::Blank, _) => Some(CellOrd::Less),
            (_, DataCell::Blank) => Some(CellOrd::Greater),
            (DataCell::PlainText(x), DataCell::PlainText(y)) => Some(
                str_cmp(x.as_str(), y.as_str()),
            ),
            (DataCell::Int(x), DataCell::Int(y)) => Some(
                if x < y {
                    CellOrd::Less
                } else if x == y {
                    CellOrd::Equal
                } else {
                    CellOrd::Greater
                },
            ),
            (DataCell::Int(x), DataCell::Float(y)) => {
                let xs = i64_to_string(*x);
                proof {
                    lemma_int_as_decimal(*x);
                }
                Some(compare_decimals(xs.as_str(), y.as_str()))
            },
            (DataCell::Float(x), DataCell::Int(y)) => {
                let ys = i64_to_string(*y);
                proof {
                    lemma_int_as_decimal(*y);
                }
                Some(compare_decimals(x.as_str(), ys.as_str()))
            },
            (DataCell::Float(x), DataCell::Float(y)) => Some(
                compare_decimals(x.as_str(), y.as_str()),
            ),
            _ => None,
        }
    }

    /// Whether two cells hold the same value, as `cell_eq_spec` says.
    pub fn eq_cell(&self, other: &DataCell) -> (r: bool)
        requires
            cell_wf(self@),
            cell_wf(other@),
        ensures
            r == cell_eq_spec(self@, other@),
    {
        match (self, other) {
            (DataCell::PlainText(x), DataCell::PlainText(y)) => str_eq(x.as_str(), y.as_str()),
            (DataCell::WikiPage(x), DataCell::WikiPage(y)) => x.eq(y),
            (DataCell::Int(x), DataCell::Int(y)) => x == y,
            (DataCell::Float(x), DataCell::Float(y)) => {
                let c = compare_decimals(x.as_str(), y.as_str());
                match c {
                    CellOrd::Equal => true,
                    _ => false,
                }
            },
            (DataCell::Blank, DataCell::Blank) => true,
            _ => false,
        }
    }
}

/// A raw value handed in from a data source, already freed of its transport
/// encoding: text, an integer, a decimal numeral, a boolean, or nothing.
#[derive(Clone, Debug)]
#[verifier::ext_equal]
pub enum SourceValue {
    Text(String),
    Integer(i64),
    Decimal(String),
    Boolean(bool),
    Null,
}

/// The mathematical value of a `SourceValue`.
#[verifier::ext_equal]
pub enum SourceV {
    Text(Seq<char>),
    Integer(i64),
    Decimal(Seq<char>),
    Boolean(bool),
    Null,
}

impl View for SourceValue {
    type V = SourceV;

    open spec fn view(&self) -> SourceV {
        match self {
            SourceValue::Text(s) => SourceV::Text(s@),
            SourceValue::Integer(i) => SourceV::Integer(*i),
            SourceValue::Decimal(s) => SourceV::Decimal(s@),
            SourceValue::Boolean(b) => SourceV::Boolean(*b),
            SourceValue::Null => SourceV::Null,
        }
    }
}

/// Whether `s` starts with `p`.
pub open spec fn starts_with_seq(s: Seq<char>, p: Seq<char>) -> bool {
    s.len() >= p.len() && s.take(p.len() as int) == p
}

pub open spec fn entity_tail(t: Seq<char>) -> Option<(i64, Seq<char>)> {
    if t.len() >= 2 && (t[0] == 'Q' || t[0] == 'P') && all_digits(t.skip(1)) {
        Some(
            (
                if t[0] == 'Q' {
                    0i64
                } else {
                    120i64
                },
                t,
            ),
        )
    } else {
        None
    }
}

/// The namespace id and title a Wikidata entity URL denotes: `Q…` items live
/// in namespace 0, `P…` properties in namespace 120.
pub open spec fn entity_of_url(s: Seq<char>) -> Option<(i64, Seq<char>)> {
    if starts_with_seq(s, "https://www.wikidata.org/entity/"@) {
        entity_tail(s.skip("https://www.wikidata.org/entity/"@.len() as int))
    } else if starts_with_seq(s, "http://www.wikidata.org/entity/"@) {
        entity_tail(s.skip("http://www.wikidata.org/entity/"@.len() as int))
    } else {
        None
    }
}

fn entity_tail_of(t: &str) -> (r: Option<(i64, String)>)
    ensures
        match r {
            Some((ns, title)) => entity_tail(t@) == Some((ns, title@)),
            None => entity_tail(t@) is None,
        },
{
    let n = t.unicode_len();
    if n < 2 {
        return None;
    }
    let c0 = t.get_char(0);
    if c0 != 'Q' && c0 != 'P' {
        return None;
    }
    let digits = t.substring_char(1, n);
    proof {
        assert(digits@ =~= t@.skip(1));
    }
    if !crate::decimal::check_digits(digits) {
        return None;
    }
    let ns: i64 = if c0 == 'Q' {
        0
    } else {
        120
    };
    Some((ns, t.to_owned()))
}

/// Parses a Wikidata entity URL to its namespace id and title.
pub fn entity_from_url(url: &str) -> (r: Option<(i64, String)>)
    ensures
        match r {
            Some((ns, title)) => entity_of_url(url@) == Some((ns, title@)),
            None => entity_of_url(url@) is None,
        },
{
    let n = url.unicode_len();
    let p1 = "https://www.wikidata.org/entity/";
    let p1n = p1.unicode_len();
    if n >= p1n && str_eq(url.substring_char(0, p1n), p1) {
        proof {
            assert(url@.take(p1n as int) == p1@);
        }
        let tail = url.substring_char(p1n, n);
        proof {
            assert(tail@ =~= url@.skip(p1n as int));
        }
        return entity_tail_of(tail);
    }
    let p2 = "http://www.wikidata.org/entity/";
    let p2n = p2.unicode_len();
    if n >= p2n && str_eq(url.substring_char(0, p2n), p2) {
        proof {
            assert(url@.take(p2n as int) == p2@);
        }
        let tail = url.substring_char(p2n, n);
        proof {
            assert(tail@ =~= url@.skip(p2n as int));
        }
        return entity_tail_of(tail);
    }
    None
}

/// What building a cell from a source value yields: plain-text columns take
/// text, integer columns integers, decimal columns numerals (integers are
/// widened), and wiki page columns complete the column's default page with
/// the addressed field before normalising it against the site table.
pub open spec fn from_value_spec(
    v: SourceV,
    kind: ColKindV,
    elem: Seq<char>,
    sites: Seq<crate::site::SiteNamespaces>,
) -> Option<CellV> {
    match kind {
        ColKindV::PlainText => match v {
            SourceV::Text(s) => Some(CellV::Text(s)),
            _ => None,
        },
        ColKindV::Int => match v {
            SourceV::Integer(i) => Some(CellV::Int(i)),
            _ => None,
        },
        ColKindV::Float => match v {
            SourceV::Decimal(s) => if is_decimal(s) && s.len() <= usize::MAX / 4 {
                Some(CellV::Float(s))
            } else {
                None
            },
            SourceV::Integer(i) => Some(CellV::Float(i64_dec_digits(i as int))),
            _ => None,
        },
        ColKindV::WikiPage(w0) => match v {
            SourceV::Text(s) => match page_with_field(w0, elem, s) {
                Some(w1) => Some(CellV::Page(fill_missing_spec(w1, sites))),
                None => None,
            },
            _ => None,
        },
    }
}

/// The column's default page with one field set from the source text.
pub open spec fn page_with_field(w0: WikiPageV, elem: Seq<char>, s: Seq<char>) -> Option<
    WikiPageV,
> {
    if elem == "title"@ {
        Some(WikiPageV { title: Some(s), ..w0 })
    } else if elem == "prefixed_title"@ {
        Some(WikiPageV { prefixed_title: Some(s), ..w0 })
    } else if elem == "ns_prefix"@ {
        Some(WikiPageV { ns_prefix: Some(s), ..w0 })
    } else if elem == "ns_id"@ {
        Some(WikiPageV { ns_id: crate::text::i64_of_digits(s), ..w0 })
    } else if elem == "page_id"@ {
        Some(WikiPageV { page_id: crate::text::i64_of_digits(s), ..w0 })
    } else if elem == "wiki"@ {
        Some(WikiPageV { wiki: Some(s), ..w0 })
    } else if elem == "entity_url"@ {
        match entity_of_url(s) {
            Some((ns, title)) => Some(
                WikiPageV {
                    ns_id: Some(ns),
                    title: Some(title),
                    prefixed_title: Some(title),
                    ..w0
                },
            ),
            None => Some(w0),
        }
    } else {
        None
    }
}

/// The view of an optional cell.
pub open spec fn opt_cell_view(o: Option<DataCell>) -> Option<CellV> {
    match o {
        Some(c) => Some(c@),
        None => None,
    }
}

impl DataCell {
    /// Builds a cell of the column's kind from a raw source value; the
    /// element name says which wiki page field the value addresses.
    pub fn from_value(
        value: &SourceValue,
        col_header: &ColumnHeader,
        element_name: &str,
        sites: &SiteTable,
    ) -> (r: Option<DataCell>)
        ensures
            opt_cell_view(r) == from_value_spec(value@, col_header.kind@, element_name@, sites.sites@),
            r is Some ==> cell_wf(r.unwrap()@),
    {
        match &col_header.kind {
            ColumnHeaderType::PlainText => match value {
                SourceValue::Text(s) => Some(DataCell::PlainText(s.clone())),
                _ => None,
            },
            ColumnHeaderType::Int => match value {
                SourceValue::Integer(i) => Some(DataCell::Int(*i)),
                _ => None,
            },
            ColumnHeaderType::Float => match value {
                SourceValue::Decimal(s) => {
                    if is_decimal_str(s.as_str()) && s.as_str().unicode_len() <= usize::MAX / 4 {
                        Some(DataCell::Float(s.clone()))
                    } else {
                        None
                    }
                },
                SourceValue::Integer(i) => {
                    proof {
                        lemma_int_as_decimal(*i);
                    }
                    Some(DataCell::Float(i64_to_string(*i)))
                },
                _ => None,
            },
            ColumnHeaderType::WikiPage(w0) => match value {
                SourceValue::Text(s) => {
                    let mut wp = w0.duplicate();
                    if str_eq(element_name, "title") {
                        wp.title = Some(s.clone());
                    } else if str_eq(element_name, "prefixed_title") {
                        wp.prefixed_title = Some(s.clone());
                    } else if str_eq(element_name, "ns_prefix") {
                        wp.ns_prefix = Some(s.clone());
                    } else if str_eq(element_name, "ns_id") {
                        wp.ns_id = parse_i64(s.as_str());
                    } else if str_eq(element_name, "page_id") {
                        wp.page_id = parse_i64(s.as_str());
                    } else if str_eq(element_name, "wiki") {
                        wp.wiki = Some(s.clone());
                    } else if str_eq(element_name, "entity_url") {
                        match entity_from_url(s.as_str()) {
                            Some((ns, title)) => {
                                wp.ns_id = Some(ns);
                                wp.title = Some(title.clone());
                                wp.prefixed_title = Some(title);
                            },
                            None => {},
                        }
                    } else {
                        return None;
                    }
                    wp.fill_missing(sites);
                    Some(DataCell::WikiPage(wp))
                },
                _ => None,
            },
        }
    }
}

} // verus!
