//! Site metadata: per-wiki namespace tables and web-server host resolution.
//!
//! The engine resolves namespace prefixes ("Kategorie", "Category") to
//! numeric namespace ids and back against a per-wiki table. Fetching a
//! site's table is network work and happens outside the library; the table
//! itself is plain data and every lookup over it is verified.
use vstd::prelude::*;

use crate::seqs::{find_index, lemma_find_index, lemma_find_index_is, lemma_find_index_none};
use crate::text::{norm_name, normalize_name, str_eq};

verus! {

/// One namespace of a wiki: its numeric id, its localised name and its
/// canonical (English) name.
#[derive(Clone, Debug)]
pub struct NamespaceEntry {
    pub id: i64,
    pub local_name: String,
    pub canonical_name: String,
}

/// The namespace table of one wiki.
#[derive(Clone, Debug)]
pub struct SiteNamespaces {
    pub wiki: String,
    pub namespaces: Vec<NamespaceEntry>,
}

/// Namespace tables for any number of wikis, keyed by wiki id
/// (`"enwiki"`, `"commonswiki"`, ...).
#[derive(Clone, Debug)]
pub struct SiteTable {
    pub sites: Vec<SiteNamespaces>,
}

/// Index of the first table for `wiki`, or -1 if none is known.
pub open spec fn site_index(sites: Seq<SiteNamespaces>, wiki: Seq<char>) -> int {
    find_index(sites, |s: SiteNamespaces| s.wiki@ == wiki)
}

/// Whether `entry` answers to `name` (already normalised), by its localised
/// or its canonical name.
pub open spec fn entry_matches(entry: NamespaceEntry, name: Seq<char>) -> bool {
    norm_name(entry.local_name@) == name || norm_name(entry.canonical_name@) == name
}

/// The id of the first matching namespace among `ns`, or 0 when none
/// matches (an unknown prefix resolves to the main namespace).
pub open spec fn ns_id_for_name(ns: Seq<NamespaceEntry>, name: Seq<char>) -> i64 {
    let k = find_index(ns, |e: NamespaceEntry| entry_matches(e, name));
    if k == -1 {
        0
    } else {
        ns[k].id
    }
}

/// The localised name of the first namespace with `id` among `ns`.
pub open spec fn ns_name_for_id(ns: Seq<NamespaceEntry>, id: i64) -> Option<Seq<char>> {
    let k = find_index(ns, |e: NamespaceEntry| e.id == id);
    if k == -1 {
        None
    } else {
        Some(ns[k].local_name@)
    }
}

/// What a namespace-id lookup for (`wiki`, `name`) returns over `sites`:
/// `None` when the wiki is unknown, else the first matching id, with 0 for
/// an unknown prefix.
pub open spec fn spec_ns_name_to_id(
    sites: Seq<SiteNamespaces>,
    wiki: Seq<char>,
    name: Seq<char>,
) -> Option<i64> {
    let i = site_index(sites, wiki);
    if i == -1 {
        None
    } else {
        Some(ns_id_for_name(sites[i].namespaces@, norm_name(name)))
    }
}

/// What a namespace-name lookup for (`wiki`, `id`) returns over `sites`.
pub open spec fn spec_ns_id_to_name(
    sites: Seq<SiteNamespaces>,
    wiki: Seq<char>,
    id: i64,
) -> Option<Seq<char>> {
    let i = site_index(sites, wiki);
    if i == -1 {
        None
    } else {
        ns_name_for_id(sites[i].namespaces@, id)
    }
}

impl SiteTable {
    /// A table that knows no wiki at all.
    pub fn new() -> (r: Self)
        ensures
            r.sites@.len() == 0,
    {
        SiteTable { sites: Vec::new() }
    }

    fn find_site(&self, wiki: &str) -> (r: Option<usize>)
        ensures
            match r {
                Some(i) => site_index(self.sites@, wiki@) == i as int && i < self.sites@.len(),
                None => site_index(self.sites@, wiki@) == -1,
            },
    {
        let ghost p = |s: SiteNamespaces| s.wiki@ == wiki@;
        let n = self.sites.len();
        let mut i: usize = 0;
        while i < n
            invariant
                p == (|s: SiteNamespaces| s.wiki@ == wiki@),
                n == self.sites@.len(),
                i <= n,
                forall|j: int| 0 <= j < i ==> !p(#[trigger] self.sites@[j]),
            decreases n - i,
        {
            if str_eq(self.sites[i].wiki.as_str(), wiki) {
                proof {
                    lemma_find_index_is(self.sites@, p, i as int);
                }
                return Some(i);
            }
            i = i + 1;
        }
        proof {
            lemma_find_index_none(self.sites@, p);
        }
        None
    }

    /// Resolves a namespace prefix to its numeric id, case-insensitively and
    /// with spaces and underscores identified; `None` when the wiki is not in
    /// the table, 0 when the wiki is known but the prefix is not.
    pub fn ns_name_to_id(&self, wiki: &str, name: &str) -> (r: Option<i64>)
        ensures
            r == spec_ns_name_to_id(self.sites@, wiki@, name@),
    {
        let site = match self.find_site(wiki) {
            Some(i) => i,
            None => {
                return None;
            },
        };
        let wanted = normalize_name(name);
        let ns = &self.sites[site].namespaces;
        let ghost p = |e: NamespaceEntry| entry_matches(e, norm_name(name@));
        let n = ns.len();
        let mut i: usize = 0;
        while i < n
            invariant
                p == (|e: NamespaceEntry| entry_matches(e, norm_name(name@))),
                n == ns@.len(),
                i <= n,
                wanted@ == norm_name(name@),
                site < self.sites@.len(),
                site as int == site_index(self.sites@, wiki@),
                ns@ == self.sites@[site as int].namespaces@,
                forall|j: int| 0 <= j < i ==> !p(#[trigger] ns@[j]),
        decreases n - i,
    {
            let local = normalize_name(ns[i].local_name.as_str());
            let hit = if str_eq(local.as_str(), wanted.as_str()) {
                true
            } else {
                let canonical = normalize_name(ns[i].canonical_name.as_str());
                str_eq(canonical.as_str(), wanted.as_str())
            };
            if hit {
                proof {
                    lemma_find_index_is(ns@, p, i as int);
                }
                return Some(ns[i].id);
            }
            i = i + 1;
        }
        proof {
            lemma_find_index_none(ns@, p);
        }
        Some(0)
    }

    /// Resolves a numeric namespace id to the wiki's localised name.
    pub fn ns_id_to_name(&self, wiki: &str, id: i64) -> (r: Option<String>)
        ensures
            match r {
                Some(s) => spec_ns_id_to_name(self.sites@, wiki@, id) == Some(s@),
                None => spec_ns_id_to_name(self.sites@, wiki@, id) is None,
            },
    {
        let site = match self.find_site(wiki) {
            Some(i) => i,
            None => {
                return None;
            },
        };
        let ns = &self.sites[site].namespaces;
        let ghost p = |e: NamespaceEntry| e.id == id;
        let n = ns.len();
        let mut i: usize = 0;
        while i < n
            invariant
                p == (|e: NamespaceEntry| e.id == id),
                n == ns@.len(),
                i <= n,
                site < self.sites@.len(),
                site as int == site_index(self.sites@, wiki@),
                ns@ == self.sites@[site as int].namespaces@,
                forall|j: int| 0 <= j < i ==> !p(#[trigger] ns@[j]),
            decreases n - i,
        {
            if ns[i].id == id {
                proof {
                    lemma_find_index_is(ns@, p, i as int);
                }
                let found = ns[i].local_name.clone();
                return Some(found);
            }
            i = i + 1;
        }
        proof {
            lemma_find_index_none(ns@, p);
        }
        None
    }
}

} // verus!
