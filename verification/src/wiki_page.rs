//! A partially specified reference to a wiki page, and the normalisation
//! that completes it: underscore normalisation, namespace resolution against
//! a site table, and derivation of the prefixed title.
use vstd::prelude::*;

use crate::site::{site_index, spec_ns_id_to_name, spec_ns_name_to_id, SiteTable, SiteNamespaces};
use crate::text::{find_char, lemma_find_char, find_char_in, replace_char, replace_char_seq};

verus! {

/// A wiki page reference. Unset fields are completed by `fill_missing`.
#[derive(Clone, Debug)]
pub struct WikiPage {
    pub title: Option<String>,
    pub prefixed_title: Option<String>,
    pub ns_id: Option<i64>,
    pub page_id: Option<i64>,
    pub ns_prefix: Option<String>,
    pub wiki: Option<String>,
}

/// The mathematical value of a `WikiPage`.
#[verifier::ext_equal]
pub struct WikiPageV {
    pub title: Option<Seq<char>>,
    pub prefixed_title: Option<Seq<char>>,
    pub ns_id: Option<i64>,
    pub page_id: Option<i64>,
    pub ns_prefix: Option<Seq<char>>,
    pub wiki: Option<Seq<char>>,
}

/// The view of one optional string field.
pub open spec fn opt_str_view(o: Option<String>) -> Option<Seq<char>> {
    match o {
        Some(s) => Some(s@),
        None => None,
    }
}

impl View for WikiPage {
    type V = WikiPageV;

    open spec fn view(&self) -> WikiPageV {
        WikiPageV {
            title: opt_str_view(self.title),
            prefixed_title: opt_str_view(self.prefixed_title),
            ns_id: self.ns_id,
            page_id: self.page_id,
            ns_prefix: opt_str_view(self.ns_prefix),
            wiki: opt_str_view(self.wiki),
        }
    }
}

impl Default for WikiPage {
    /// A reference with every field unset.
    fn default() -> (r: Self)
        ensures
            r@ == WikiPage::empty_page(),
    {
        WikiPage {
            title: None,
            prefixed_title: None,
            ns_id: None,
            page_id: None,
            ns_prefix: None,
            wiki: None,
        }
    }
}

impl PartialEq for WikiPage {
    /// Two references are the same page when wiki and prefixed title agree.
    fn eq(&self, other: &Self) -> (r: bool) {
        let wiki_eq = match (&self.wiki, &other.wiki) {
            (Some(a), Some(b)) => crate::text::str_eq(a.as_str(), b.as_str()),
            (None, None) => true,
            _ => false,
        };
        if !wiki_eq {
            return false;
        }
        match (&self.prefixed_title, &other.prefixed_title) {
            (Some(a), Some(b)) => crate::text::str_eq(a.as_str(), b.as_str()),
            (None, None) => true,
            _ => false,
        }
    }
}

impl vstd::std_specs::cmp::PartialEqSpecImpl for WikiPage {
    open spec fn obeys_eq_spec() -> bool {
        true
    }

    open spec fn eq_spec(&self, other: &Self) -> bool {
        self@.wiki == other@.wiki && self@.prefixed_title == other@.prefixed_title
    }
}

/// One normalisation step: spaces become underscores in both title fields.
pub open spec fn underscored(w: WikiPageV) -> WikiPageV {
    WikiPageV {
        title: match w.title {
            Some(t) => Some(replace_char_seq(t, ' ', '_')),
            None => None,
        },
        prefixed_title: match w.prefixed_title {
            Some(t) => Some(replace_char_seq(t, ' ', '_')),
            None => None,
        },
        ..w
    }
}

/// One normalisation step: when the wiki is known and no namespace id is
/// set, split the prefixed title at its first colon and resolve the prefix.
/// Without a colon the page is in the main namespace; an unresolvable prefix
/// counts as main-namespace text; an unknown wiki leaves the page untouched.
pub open spec fn resolved_ns(w: WikiPageV, sites: Seq<SiteNamespaces>) -> WikiPageV {
    if w.wiki is Some && w.wiki.unwrap().len() > 0 && w.ns_id is None && w.prefixed_title is Some {
        let wiki = w.wiki.unwrap();
        let pt = w.prefixed_title.unwrap();
        let c = find_char(pt, ':');
        if c == -1 {
            WikiPageV { ns_id: Some(0), title: Some(pt), ..w }
        } else {
            match spec_ns_name_to_id(sites, wiki, pt.take(c)) {
                None => w,
                Some(0) => WikiPageV { ns_id: Some(0), title: Some(pt), ..w },
                Some(nz) => WikiPageV {
                    ns_id: Some(nz),
                    ns_prefix: Some(pt.take(c)),
                    title: Some(pt.skip(c + 1)),
                    ..w
                },
            }
        }
    } else {
        w
    }
}

/// One normalisation step: when the wiki is known, a non-zero namespace id
/// is set and no prefix is, take the wiki's localised namespace name.
pub open spec fn resolved_prefix(w: WikiPageV, sites: Seq<SiteNamespaces>) -> WikiPageV {
    if w.wiki is Some && w.wiki.unwrap().len() > 0 && w.ns_prefix is None && w.ns_id is Some
        && w.ns_id.unwrap() != 0 {
        match spec_ns_id_to_name(sites, w.wiki.unwrap(), w.ns_id.unwrap()) {
            Some(name) => WikiPageV { ns_prefix: Some(name), ..w },
            None => w,
        }
    } else {
        w
    }
}

/// One normalisation step: when the prefixed title is missing and a
/// non-empty title is known, compose it from prefix and title; a page known
/// to sit in the main namespace takes the bare title.
pub open spec fn composed_prefixed(w: WikiPageV) -> WikiPageV {
    if w.prefixed_title is None && w.title is Some && w.title.unwrap().len() > 0 {
        match w.ns_prefix {
            Some(p) => if p.len() == 0 {
                WikiPageV { prefixed_title: w.title, ..w }
            } else {
                WikiPageV { prefixed_title: Some(p + seq![':'] + w.title.unwrap()), ..w }
            },
            None => if w.ns_id == Some(0i64) {
                WikiPageV { prefixed_title: w.title, ..w }
            } else {
                w
            },
        }
    } else {
        w
    }
}

/// What `fill_missing` does, as a function of the page and the site table.
pub open spec fn fill_missing_spec(w: WikiPageV, sites: Seq<SiteNamespaces>) -> WikiPageV {
    composed_prefixed(resolved_prefix(resolved_ns(underscored(w), sites), sites))
}

impl WikiPage {
    /// The value of a page with every field unset.
    pub open spec fn empty_page() -> WikiPageV {
        WikiPageV {
            title: None,
            prefixed_title: None,
            ns_id: None,
            page_id: None,
            ns_prefix: None,
            wiki: None,
        }
    }

    /// A reference to a Wikidata item: main namespace of `wikidatawiki`.
    pub fn new_wikidata_item() -> (r: Self)
        ensures
            r@ == (WikiPageV {
                ns_id: Some(0i64),
                wiki: Some("wikidatawiki"@),
                ..WikiPage::empty_page()
            }),
    {
        WikiPage {
            title: None,
            prefixed_title: None,
            ns_id: Some(0),
            page_id: None,
            ns_prefix: None,
            wiki: Some("wikidatawiki".to_owned()),
        }
    }

    /// A reference to a category on Wikimedia Commons.
    pub fn new_commons_category() -> (r: Self)
        ensures
            r@ == (WikiPageV {
                ns_id: Some(14i64),
                ns_prefix: Some("Category"@),
                wiki: Some("commonswiki"@),
                ..WikiPage::empty_page()
            }),
    {
        WikiPage {
            title: None,
            prefixed_title: None,
            ns_id: Some(14),
            page_id: None,
            ns_prefix: Some("Category".to_owned()),
            wiki: Some("commonswiki".to_owned()),
        }
    }

    /// A field-for-field copy of this page.
    pub fn duplicate(&self) -> (r: Self)
        ensures
            r@ == self@,
    {
        WikiPage {
            title: clone_opt_string(&self.title),
            prefixed_title: clone_opt_string(&self.prefixed_title),
            ns_id: self.ns_id,
            page_id: self.page_id,
            ns_prefix: clone_opt_string(&self.ns_prefix),
            wiki: clone_opt_string(&self.wiki),
        }
    }

    /// Normalises and completes the page against the site table.
    pub fn fill_missing(&mut self, sites: &SiteTable)
        ensures
            final (self)@ == fill_missing_spec(old(self)@, sites.sites@),
    {
        // Spaces become underscores in both title fields.
        match &self.title {
            Some(t) => {
                let nt = replace_char(t.as_str(), ' ', '_');
                self.title = Some(nt);
            },
            None => {},
        }
        match &self.prefixed_title {
            Some(t) => {
                let nt = replace_char(t.as_str(), ' ', '_');
                self.prefixed_title = Some(nt);
            },
            None => {},
        }
        proof {
            assert(self@ =~= underscored(old(self)@));
        }
        let ghost w1 = self@;

        let wiki = match &self.wiki {
            Some(w) => if w.as_str().is_empty() {
                None
            } else {
                Some(w.clone())
            },
            None => None,
        };

        // Resolve the namespace from the prefixed title.
        match (&wiki, &self.ns_id, &self.prefixed_title) {
            (Some(wk), None, Some(pt)) => {
                let n = pt.as_str().unicode_len();
                match find_char_in(pt.as_str(), ':') {
                    None => {
                        self.ns_id = Some(0);
                        self.title = Some(pt.clone());
                    },
                    Some(c) => {
                        proof {
                            lemma_find_char(pt@, ':');
                        }
                        let prefix = pt.as_str().substring_char(0, c);
                        match sites.ns_name_to_id(wk.as_str(), prefix) {
                            None => {},
                            Some(id) => {
                                if id == 0 {
                                    self.ns_id = Some(0);
                                    self.title = Some(pt.clone());
                                } else {
                                    let rest = pt.as_str().substring_char(c + 1, n);
                                    let owned_prefix = prefix.to_owned();
                                    let owned_rest = rest.to_owned();
                                    self.ns_id = Some(id);
                                    self.ns_prefix = Some(owned_prefix);
                                    self.title = Some(owned_rest);
                                }
                            },
                        }
                    },
                }
            },
            _ => {},
        }
        proof {
            assert(self@ =~= resolved_ns(w1, sites.sites@));
        }
        let ghost w2 = self@;

        // Resolve the namespace prefix from the id.
        match (&wiki, &self.ns_prefix, &self.ns_id) {
            (Some(wk), None, Some(id)) => {
                if *id != 0 {
                    match sites.ns_id_to_name(wk.as_str(), *id) {
                        Some(name) => {
                            self.ns_prefix = Some(name);
                        },
                        None => {},
                    }
                }
            },
            _ => {},
        }
        proof {
            assert(self@ =~= resolved_prefix(w2, sites.sites@));
        }
        let ghost w3 = self@;

        // Compose the prefixed title.
        if self.prefixed_title.is_none() {
            match (&self.title, &self.ns_prefix) {
                (Some(t), Some(p)) => {
                    if !t.as_str().is_empty() {
                        if p.as_str().is_empty() {
                            self.prefixed_title = Some(t.clone());
                        } else {
                            let mut composed = p.clone();
                            composed.append(":");
                            composed.append(t.as_str());
                            proof {
                                reveal_strlit(":");
                                assert(":"@ =~= seq![':']);
                            }
                            self.prefixed_title = Some(composed);
                        }
                    }
                },
                (Some(t), None) => {
                    if !t.as_str().is_empty() && self.ns_id == Some(0i64) {
                        self.prefixed_title = Some(t.clone());
                    }
                },
                _ => {},
            }
        }
        proof {
            assert(self@ =~= composed_prefixed(w3));
        }
    }
}

fn clone_opt_string(o: &Option<String>) -> (r: Option<String>)
    ensures
        opt_str_view(r) == opt_str_view(*o),
{
    match o {
        Some(s) => Some(s.clone()),
        None => None,
    }
}

/// For a page given by wiki and prefixed title alone, completion leaves the
/// prefixed title equal to the composition of the derived namespace prefix
/// and title: `prefix:title`, or the bare title for the main namespace.
///
/// This needs the page's wiki to be in the site table whenever the prefixed
/// title holds a colon, and the colon not to stand first.
pub proof fn lemma_fill_round_trip(w: WikiPageV, sites: Seq<SiteNamespaces>)
    requires
        w.wiki is Some,
        w.wiki.unwrap().len() > 0,
        w.prefixed_title is Some,
        w.title is None,
        w.ns_id is None,
        w.ns_prefix is None,
        find_char(replace_char_seq(w.prefixed_title.unwrap(), ' ', '_'), ':') != 0,
        find_char(replace_char_seq(w.prefixed_title.unwrap(), ' ', '_'), ':') != -1 ==> site_index(
            sites,
            w.wiki.unwrap(),
        ) != -1,
    ensures
        ({
            let f = fill_missing_spec(w, sites);
            &&& f.prefixed_title is Some
            &&& f.title is Some
            &&& f.prefixed_title.unwrap() == if f.ns_prefix is Some && f.ns_prefix.unwrap().len()
                > 0 {
                f.ns_prefix.unwrap() + seq![':'] + f.title.unwrap()
            } else {
                f.title.unwrap()
            }
        }),
{
    let u = underscored(w);
    let pt = u.prefixed_title.unwrap();
    let c = find_char(pt, ':');
    lemma_find_char(pt, ':');
    if c == -1 {
        assert(resolved_ns(u, sites).title == Some(pt));
    } else {
        let looked = spec_ns_name_to_id(sites, w.wiki.unwrap(), pt.take(c));
        assert(looked is Some);
        if looked.unwrap() != 0 {
            let f = resolved_ns(u, sites);
            assert(f.ns_prefix == Some(pt.take(c)));
            assert(f.title == Some(pt.skip(c + 1)));
            assert(pt.take(c).len() > 0);
            assert(pt =~= pt.take(c) + seq![pt[c]] + pt.skip(c + 1));
        }
    }
}

} // verus!
