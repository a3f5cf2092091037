//! The terminal sink: publishing a rendered table onto a wiki page. The
//! page fetch and the edit are network work and happen outside the library;
//! what is verified here is the text surgery — replacing the generated
//! section between its markers, or appending a fresh one.
use vstd::prelude::*;

use crate::text::str_eq;

verus! {

/// Whether pattern `p` reads at position `i` of `s`.
pub open spec fn sub_at(s: Seq<char>, p: Seq<char>, i: int) -> bool {
    0 <= i && i + p.len() <= s.len() && s.subrange(i, i + p.len()) == p
}

/// Index of the first occurrence of `p` in `s`, or -1.
pub open spec fn find_sub(s: Seq<char>, p: Seq<char>) -> int
    decreases s.len(),
{
    if p.len() > s.len() {
        -1
    } else if s.take(p.len() as int) == p {
        0
    } else if s.len() == 0 {
        -1
    } else if find_sub(s.drop_first(), p) == -1 {
        -1
    } else {
        1 + find_sub(s.drop_first(), p)
    }
}

/// Index of the last occurrence of `p` in `s`, or -1.
pub open spec fn rfind_sub(s: Seq<char>, p: Seq<char>) -> int
    decreases s.len(),
{
    if p.len() > s.len() {
        -1
    } else if s.skip(s.len() - p.len()) == p {
        s.len() - p.len()
    } else if s.len() == 0 {
        -1
    } else {
        rfind_sub(s.drop_last(), p)
    }
}

proof fn lemma_find_sub_props(s: Seq<char>, p: Seq<char>)
    ensures
        find_sub(s, p) == -1 ==> forall|i: int| !sub_at(s, p, i),
        find_sub(s, p) != -1 ==> sub_at(s, p, find_sub(s, p)) && forall|i: int|
            0 <= i < find_sub(s, p) ==> !sub_at(s, p, i),
    decreases s.len(),
{
    if p.len() > s.len() {
        assert forall|i: int| !sub_at(s, p, i) by {}
    } else if s.take(p.len() as int) == p {
        assert(s.subrange(0, p.len() as int) =~= s.take(p.len() as int));
    } else if s.len() == 0 {
        assert forall|i: int| !sub_at(s, p, i) by {
            if sub_at(s, p, i) {
                assert(s.subrange(i, i + p.len()) =~= s.take(p.len() as int));
            }
        }
    } else {
        let d = s.drop_first();
        lemma_find_sub_props(d, p);
        assert forall|i: int| 1 <= i implies (sub_at(s, p, i) <==> sub_at(d, p, i - 1)) by {
            if i + p.len() <= s.len() {
                assert(s.subrange(i, i + p.len()) =~= d.subrange(i - 1, i - 1 + p.len()));
            }
        }
        assert(!sub_at(s, p, 0)) by {
            assert(s.subrange(0, p.len() as int) =~= s.take(p.len() as int));
        }
        if find_sub(d, p) == -1 {
            assert forall|i: int| !sub_at(s, p, i) by {
                if i >= 1 {
                    assert(!sub_at(d, p, i - 1));
                }
            }
        } else {
            let k = find_sub(d, p);
            assert(sub_at(d, p, k));
            assert(sub_at(s, p, k + 1));
            assert forall|i: int| 0 <= i < k + 1 implies !sub_at(s, p, i) by {
                if i >= 1 {
                    assert(!sub_at(d, p, i - 1));
                }
            }
        }
    }
}

proof fn lemma_rfind_sub_props(s: Seq<char>, p: Seq<char>)
    ensures
        rfind_sub(s, p) == -1 ==> forall|i: int| !sub_at(s, p, i),
        rfind_sub(s, p) != -1 ==> sub_at(s, p, rfind_sub(s, p)) && forall|i: int|
            rfind_sub(s, p) < i ==> !sub_at(s, p, i),
    decreases s.len(),
{
    if p.len() > s.len() {
        assert forall|i: int| !sub_at(s, p, i) by {}
    } else if s.skip(s.len() - p.len()) == p {
        assert(s.subrange(s.len() - p.len(), s.len() as int) =~= s.skip(s.len() - p.len()));
        assert forall|i: int| s.len() - p.len() < i implies !sub_at(s, p, i) by {}
    } else if s.len() == 0 {
        assert forall|i: int| !sub_at(s, p, i) by {
            if sub_at(s, p, i) {
                assert(s.subrange(i, i + p.len()) =~= s.skip(s.len() - p.len()));
            }
        }
    } else {
        let d = s.drop_last();
        lemma_rfind_sub_props(d, p);
        assert forall|i: int|
            0 <= i && i + p.len() <= s.len() - 1 implies (sub_at(s, p, i) <==> sub_at(
            d,
            p,
            i,
        )) by {
            assert(s.subrange(i, i + p.len()) =~= d.subrange(i, i + p.len()));
        }
        assert(!sub_at(s, p, s.len() - p.len())) by {
            assert(s.subrange(s.len() - p.len(), s.len() as int) =~= s.skip(s.len() - p.len()));
        }
        if rfind_sub(d, p) == -1 {
            assert forall|i: int| !sub_at(s, p, i) by {
                if 0 <= i && i + p.len() <= s.len() - 1 {
                    assert(!sub_at(d, p, i));
                } else if i == s.len() - p.len() {
                }
            }
        } else {
            let k = rfind_sub(d, p);
            assert(sub_at(d, p, k));
            assert(sub_at(s, p, k)) by {
                assert(s.subrange(k, k + p.len()) =~= d.subrange(k, k + p.len()));
            }
            assert forall|i: int| k < i implies !sub_at(s, p, i) by {
                if 0 <= i && i + p.len() <= s.len() - 1 {
                    assert(!sub_at(d, p, i));
                } else if i == s.len() - p.len() {
                }
            }
        }
    }
}

/// Index of the first occurrence of `p` in `s`, if any.
pub fn find_sub_in(s: &str, p: &str) -> (r: Option<usize>)
    ensures
        match r {
            Some(i) => find_sub(s@, p@) == i as int,
            None => find_sub(s@, p@) == -1,
        },
{
    let n = s.unicode_len();
    let m = p.unicode_len();
    if m > n {
        proof {
            lemma_find_sub_props(s@, p@);
            if find_sub(s@, p@) != -1 {
                assert(sub_at(s@, p@, find_sub(s@, p@)));
            }
        }
        return None;
    }
    if m == 0 {
        proof {
            assert(s@.take(0) =~= p@);
        }
        return Some(0);
    }
    let mut i: usize = 0;
    while i <= n - m
        invariant
            n == s@.len(),
            m == p@.len(),
            1 <= m <= n,
            i <= n - m + 1,
            forall|x: int| 0 <= x < i ==> !sub_at(s@, p@, x),
        decreases n - m + 1 - i,
    {
        let piece = s.substring_char(i, i + m);
        if str_eq(piece, p) {
            proof {
                assert(piece@ =~= s@.subrange(i as int, i as int + m));
                assert(sub_at(s@, p@, i as int));
                lemma_find_sub_props(s@, p@);
                if find_sub(s@, p@) == -1 {
                    assert(!sub_at(s@, p@, i as int));
                } else if find_sub(s@, p@) < i as int {
                    assert(!sub_at(s@, p@, find_sub(s@, p@)));
                } else if find_sub(s@, p@) > i as int {
                    assert(!sub_at(s@, p@, i as int));
                }
            }
            return Some(i);
        }
        proof {
            assert(piece@ =~= s@.subrange(i as int, i as int + m));
            assert(!sub_at(s@, p@, i as int));
        }
        i = i + 1;
    }
    proof {
        lemma_find_sub_props(s@, p@);
        if find_sub(s@, p@) != -1 {
            assert(sub_at(s@, p@, find_sub(s@, p@)));
        }
    }
    None
}

/// Index of the last occurrence of `p` in `s`, if any.
pub fn rfind_sub_in(s: &str, p: &str) -> (r: Option<usize>)
    ensures
        match r {
            Some(i) => rfind_sub(s@, p@) == i as int,
            None => rfind_sub(s@, p@) == -1,
        },
{
    let n = s.unicode_len();
    let m = p.unicode_len();
    if m > n {
        proof {
            lemma_rfind_sub_props(s@, p@);
            if rfind_sub(s@, p@) != -1 {
                assert(sub_at(s@, p@, rfind_sub(s@, p@)));
            }
        }
        return None;
    }
    if m == 0 {
        proof {
            assert(s@.skip(n as int) =~= p@);
            lemma_rfind_sub_props(s@, p@);
        }
        return Some(n);
    }
    let mut i: usize = n - m + 1;
    while i > 0
        invariant
            n == s@.len(),
            m == p@.len(),
            m <= n,
            i <= n - m + 1,
            forall|x: int| i <= x ==> !sub_at(s@, p@, x),
        decreases i,
    {
        i = i - 1;
        let piece = s.substring_char(i, i + m);
        if str_eq(piece, p) {
            proof {
                assert(piece@ =~= s@.subrange(i as int, i as int + m));
                assert(sub_at(s@, p@, i as int));
                lemma_rfind_sub_props(s@, p@);
                if rfind_sub(s@, p@) == -1 {
                    assert(!sub_at(s@, p@, i as int));
                } else if rfind_sub(s@, p@) < i as int {
                    assert(!sub_at(s@, p@, i as int));
                } else if rfind_sub(s@, p@) > i as int {
                    assert(!sub_at(s@, p@, rfind_sub(s@, p@)));
                }
            }
            return Some(i);
        }
        proof {
            assert(piece@ =~= s@.subrange(i as int, i as int + m));
            assert(!sub_at(s@, p@, i as int));
        }
    }
    proof {
        lemma_rfind_sub_props(s@, p@);
        if rfind_sub(s@, p@) != -1 {
            assert(sub_at(s@, p@, rfind_sub(s@, p@)));
        }
    }
    None
}

/// What `str::trim` returns: a function of the characters alone.
pub uninterp spec fn trim_of(s: Seq<char>) -> Seq<char>;

/// Relies on `str::trim`: the result depends on the characters alone.
#[verifier::external_body]
fn trim(s: &str) -> (r: String)
    ensures
        r@ == trim_of(s@),
{
    s.trim().to_owned()
}

/// The generated section the engine maintains on a page.
pub open spec fn start_marker() -> Seq<char> {
    "<!--TOOLFLOW GENERATOR START-->"@
}

/// The end of the generated section.
pub open spec fn end_marker() -> Seq<char> {
    "<!--TOOLFLOW GENERATOR END-->"@
}

/// The fresh generated section for a rendered table.
pub open spec fn generated_section(table_text: Seq<char>) -> Seq<char> {
    start_marker() + "\n"@ + table_text + "\n"@ + end_marker() + "\n"@
}

/// The page text after the generated section is replaced: the span from the
/// first start marker to the last end marker is substituted when both stand
/// in order; otherwise the fresh section is appended and the page trimmed.
pub open spec fn spliced(before: Seq<char>, table_text: Seq<char>) -> Seq<char> {
    let i = find_sub(before, start_marker());
    let j = rfind_sub(before, end_marker());
    if i != -1 && j != -1 && j >= i + start_marker().len() {
        before.take(i) + generated_section(table_text) + before.skip(j + end_marker().len() as int)
    } else {
        trim_of(before + "\n"@ + generated_section(table_text))
    }
}

/// The terminal sink of a workflow: it renders its one input and places the
/// result on a wiki page. The page edit happens outside the library; the
/// text surgery is `splice_generated_section`.
#[derive(Clone, Debug, Default)]
pub struct Generator {}

impl Generator {
    /// Replaces the generated section of a page, as
    /// `splice_generated_section` does.
    pub fn wikipage_text(&self, before: &str, table_text: &str) -> (r: (String, bool))
        ensures
            r.0@ == spliced(before@, table_text@),
            r.1 == (r.0@ != before@),
    {
        splice_generated_section(before, table_text)
    }
}

/// Replaces the generated section of a page with a fresh rendering, or
/// appends one; the flag says whether the page changed at all, so the
/// caller can skip a needless edit.
pub fn splice_generated_section(before: &str, table_text: &str) -> (r: (String, bool))
    ensures
        r.0@ == spliced(before@, table_text@),
        r.1 == (r.0@ != before@),
{
    let start = "<!--TOOLFLOW GENERATOR START-->";
    let end = "<!--TOOLFLOW GENERATOR END-->";
    let mut section = start.to_owned();
    section.append("\n");
    section.append(table_text);
    section.append("\n");
    section.append(end);
    section.append("\n");
    proof {
        assert(section@ =~= generated_section(table_text@));
    }
    let n = before.unicode_len();
    let slen = start.unicode_len();
    let elen = end.unicode_len();
    let found = match (find_sub_in(before, start), rfind_sub_in(before, end)) {
        (Some(i), Some(j)) => {
            proof {
                lemma_find_sub_props(before@, start@);
                lemma_rfind_sub_props(before@, end@);
                assert(sub_at(before@, start@, i as int));
                assert(sub_at(before@, end@, j as int));
            }
            if j >= i + slen {
                Some((i, j))
            } else {
                None
            }
        },
        _ => None,
    };
    let after: String = match found {
        Some((i, j)) => {
            proof {
                lemma_find_sub_props(before@, start@);
                lemma_rfind_sub_props(before@, end@);
                assert(sub_at(before@, start@, i as int));
                assert(sub_at(before@, end@, j as int));
            }
            let mut out = before.substring_char(0, i).to_owned();
            out.append(section.as_str());
            out.append(before.substring_char(j + elen, n));
            proof {
                assert(out@ =~= spliced(before@, table_text@));
            }
            out
        },
        None => {
            let mut whole = before.to_owned();
            whole.append("\n");
            whole.append(section.as_str());
            proof {
                assert(whole@ =~= before@ + "\n"@ + generated_section(table_text@));
            }
            trim(whole.as_str())
        },
    };
    let changed = !str_eq(after.as_str(), before);
    (after, changed)
}

} // verus!
