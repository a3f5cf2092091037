//! First-match search over sequences, shared by the lookup routines of the
//! site table, the column headers and the operators.
use vstd::prelude::*;

verus! {

/// Index of the first element of `s` satisfying `p`, or -1 if there is none.
pub open spec fn find_index<T>(s: Seq<T>, p: spec_fn(T) -> bool) -> int
    decreases s.len(),
{
    if s.len() == 0 {
        -1
    } else if p(s[0]) {
        0
    } else if find_index(s.drop_first(), p) == -1 {
        -1
    } else {
        1 + find_index(s.drop_first(), p)
    }
}

pub proof fn lemma_find_index<T>(s: Seq<T>, p: spec_fn(T) -> bool)
    ensures
        find_index(s, p) == -1 ==> forall|i: int| 0 <= i < s.len() ==> !p(#[trigger] s[i]),
        find_index(s, p) != -1 ==> 0 <= find_index(s, p) < s.len() && p(s[find_index(s, p)])
            && forall|i: int| 0 <= i < find_index(s, p) ==> !p(#[trigger] s[i]),
    decreases s.len(),
{
    if s.len() != 0 && !p(s[0]) {
        let d = s.drop_first();
        lemma_find_index(d, p);
        assert(forall|i: int| 1 <= i < s.len() ==> s[i] == #[trigger] d[i - 1]);
        if find_index(d, p) == -1 {
            assert forall|i: int| 0 <= i < s.len() implies !p(#[trigger] s[i]) by {
                if i >= 1 {
                    assert(s[i] == d[i - 1]);
                }
            }
        } else {
            let k = find_index(d, p);
            assert(s[1 + k] == d[k]);
            assert forall|i: int| 0 <= i < 1 + k implies !p(#[trigger] s[i]) by {
                if i >= 1 {
                    assert(s[i] == d[i - 1]);
                }
            }
        }
    }
}

/// When `i` is a match and nothing before it is, `i` is the first match.
pub proof fn lemma_find_index_is<T>(s: Seq<T>, p: spec_fn(T) -> bool, i: int)
    requires
        0 <= i < s.len(),
        p(s[i]),
        forall|j: int| 0 <= j < i ==> !p(#[trigger] s[j]),
    ensures
        find_index(s, p) == i,
{
    lemma_find_index(s, p);
    let k = find_index(s, p);
    if k == -1 {
        assert(!p(s[i]));
    } else if k < i {
        assert(!p(s[k]));
    } else if k > i {
        assert(!p(s[i]));
    }
}

/// When nothing in `s` matches, there is no first match.
pub proof fn lemma_find_index_none<T>(s: Seq<T>, p: spec_fn(T) -> bool)
    requires
        forall|j: int| 0 <= j < s.len() ==> !p(#[trigger] s[j]),
    ensures
        find_index(s, p) == -1,
{
    lemma_find_index(s, p);
    let k = find_index(s, p);
    if k != -1 {
        assert(!p(s[k]));
    }
}

} // verus!
