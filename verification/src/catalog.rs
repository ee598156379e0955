//! Catalog search and pagination: full-text relevance search with
//! offset-based pagination and total-count reporting over the catalog
//! records.
//!
//! With no term, records come back in stable insertion order. With a term,
//! matching is case-insensitive; each record is scored by a weighted
//! relevance — a name match weighs two, a description match one — and
//! results come back by descending relevance, ties kept in the stable
//! order. The reported total counts only positive matches.

use vstd::prelude::*;

use crate::ids::MotherTongueRecordId;
use crate::seqs::lemma_filter_push;
use crate::text::{contains_seq, contains_substr, lower_of, lowercase};

verus! {

/// One catalog record, read-only from the core's perspective.
pub struct MotherTongue {
    pub id: MotherTongueRecordId,
    pub name: String,
    pub description: String,
    pub is_vetted: bool,
}

/// Mathematical image of a [`MotherTongue`].
pub ghost struct MotherTongueView {
    pub id: MotherTongueRecordId,
    pub name: Seq<char>,
    pub description: Seq<char>,
    pub is_vetted: bool,
}

impl View for MotherTongue {
    type V = MotherTongueView;

    open spec fn view(&self) -> MotherTongueView {
        MotherTongueView {
            id: self.id,
            name: self.name@,
            description: self.description@,
            is_vetted: self.is_vetted,
        }
    }
}

impl DeepView for MotherTongue {
    type V = MotherTongueView;

    open spec fn deep_view(&self) -> MotherTongueView {
        self.view()
    }
}

impl MotherTongue {
    /// A field-for-field copy of the record.
    pub fn duplicate(&self) -> (r: MotherTongue)
        ensures
            r@ == self@,
    {
        MotherTongue {
            id: self.id,
            name: self.name.clone(),
            description: self.description.clone(),
            is_vetted: self.is_vetted,
        }
    }
}

/// The weighted relevance of a record for a lower-cased term: two for a
/// name match plus one for a description match, both case-insensitive.
pub open spec fn relevance(t: MotherTongueView, term_lower: Seq<char>) -> int {
    (if contains_seq(lower_of(t.name), term_lower) {
        2int
    } else {
        0int
    }) + (if contains_seq(lower_of(t.description), term_lower) {
        1int
    } else {
        0int
    })
}

/// The positive matches, by descending relevance, ties kept in the stable
/// catalog order.
pub open spec fn ranked(ts: Seq<MotherTongueView>, term_lower: Seq<char>) -> Seq<
    MotherTongueView,
> {
    ts.filter(|t: MotherTongueView| relevance(t, term_lower) == 3) + ts.filter(
        |t: MotherTongueView| relevance(t, term_lower) == 2,
    ) + ts.filter(|t: MotherTongueView| relevance(t, term_lower) == 1)
}

/// The page at `offset` of at most `limit` records, clipped to the
/// sequence: an offset beyond the end gives an empty page, not an error.
pub open spec fn page_of(ts: Seq<MotherTongueView>, offset: u32, limit: u32) -> Seq<
    MotherTongueView,
> {
    let lo = if offset as int <= ts.len() {
        offset as int
    } else {
        ts.len() as int
    };
    let hi = if offset as int + limit as int <= ts.len() {
        offset as int + limit as int
    } else {
        ts.len() as int
    };
    ts.subrange(lo, hi)
}

/// Law: a term that matches only the name of one record and only the
/// description of another ranks the first above the second — the name
/// field outweighs the description field.
pub proof fn lemma_name_outranks_description(
    ts: Seq<MotherTongueView>,
    term_lower: Seq<char>,
    a: int,
    b: int,
)
    requires
        0 <= a < ts.len(),
        0 <= b < ts.len(),
        contains_seq(lower_of(ts[a].name), term_lower),
        !contains_seq(lower_of(ts[a].description), term_lower),
        !contains_seq(lower_of(ts[b].name), term_lower),
        contains_seq(lower_of(ts[b].description), term_lower),
    ensures
        exists|i: int, j: int|
            0 <= i < j < ranked(ts, term_lower).len() && (#[trigger] ranked(ts, term_lower)[i])
                == ts[a] && (#[trigger] ranked(ts, term_lower)[j]) == ts[b],
{
    let p3 = |t: MotherTongueView| relevance(t, term_lower) == 3;
    let p2 = |t: MotherTongueView| relevance(t, term_lower) == 2;
    let p1 = |t: MotherTongueView| relevance(t, term_lower) == 1;
    let f3 = ts.filter(p3);
    let f2 = ts.filter(p2);
    let f1 = ts.filter(p1);
    let rk = ranked(ts, term_lower);
    assert(relevance(ts[a], term_lower) == 2);
    assert(relevance(ts[b], term_lower) == 1);
    ts.lemma_filter_contains(p2, a);
    ts.lemma_filter_contains(p1, b);
    let ia = choose|ia: int| 0 <= ia < f2.len() && f2[ia] == ts[a];
    let ib = choose|ib: int| 0 <= ib < f1.len() && f1[ib] == ts[b];
    let i = f3.len() + ia;
    let j = f3.len() + f2.len() + ib;
    assert(rk[i] == f2[ia]);
    assert(rk[j] == f1[ib]);
    assert(0 <= i < j < rk.len());
}

/// Copies the clipped page at `offset` of at most `limit` records.
fn copy_page(v: &Vec<MotherTongue>, offset: u32, limit: u32) -> (r: Vec<MotherTongue>)
    ensures
        r.deep_view() == page_of(v.deep_view(), offset, limit),
{
    let len = v.len();
    let start = if (offset as usize) <= len {
        offset as usize
    } else {
        len
    };
    let remaining = len - start;
    let take_n = if (limit as usize) <= remaining {
        limit as usize
    } else {
        remaining
    };
    let end = start + take_n;
    let mut page: Vec<MotherTongue> = Vec::new();
    proof {
        assert(page.deep_view() =~= v.deep_view().subrange(start as int, start as int));
    }
    #[verifier::loop_isolation(false)]
    for i in start..end
        invariant
            page.deep_view() == v.deep_view().subrange(start as int, i as int),
    {
        page.push(v[i].duplicate());
        proof {
            assert(page.deep_view() =~= v.deep_view().subrange(start as int, i + 1));
        }
    }
    proof {
        assert(v.deep_view().subrange(start as int, end as int) =~= page_of(
            v.deep_view(),
            offset,
            limit,
        ));
    }
    page
}

/// The catalog table: records in insertion order, identifiers unique.
pub struct Catalog {
    tongues: Vec<MotherTongue>,
}

impl View for Catalog {
    type V = Seq<MotherTongueView>;

    closed spec fn view(&self) -> Seq<MotherTongueView> {
        self.tongues.deep_view()
    }
}

/// No two records carry the same identifier.
pub open spec fn ids_unique(s: Seq<MotherTongueView>) -> bool {
    forall|i: int, j: int| #![trigger s[i], s[j]] 0 <= i < j < s.len() ==> s[i].id != s[j].id
}

impl Catalog {
    /// An empty catalog.
    pub fn new() -> (r: Catalog)
        ensures
            r@ == Seq::<MotherTongueView>::empty(),
            ids_unique(r@),
    {
        Catalog { tongues: Vec::new() }
    }

    /// How many records the catalog holds.
    pub fn len(&self) -> (r: usize)
        ensures
            r == self@.len(),
    {
        self.tongues.len()
    }

    /// Ingests a record, keeping identifiers unique and stable: refused,
    /// with nothing changed, exactly when the identifier is already held.
    pub fn add(&mut self, tongue: MotherTongue) -> (r: bool)
        requires
            ids_unique(old(self)@),
        ensures
            ids_unique(final(self)@),
            r ==> final(self)@ == old(self)@.push(tongue@),
            !r ==> final(self)@ == old(self)@ && (exists|i: int|
                0 <= i < old(self)@.len() && (#[trigger] old(self)@[i]).id == tongue@.id),
    {
        let n = self.tongues.len();
        for i in 0..n
            invariant
                n == self@.len(),
                self@ == old(self)@,
                ids_unique(self@),
                forall|j: int| 0 <= j < i ==> (#[trigger] self@[j]).id != tongue@.id,
        {
            if self.tongues[i].id == tongue.id {
                proof {
                    assert((#[trigger] self@[i as int]).id == tongue@.id);
                }
                return false;
            }
        }
        let ghost olds = self@;
        self.tongues.push(tongue);
        proof {
            assert(self@ =~= olds.push(self.tongues@.last()@));
            assert forall|i: int, j: int|
                #![trigger self@[i], self@[j]]
                0 <= i < j < self@.len() implies self@[i].id != self@[j].id by {
                if j < olds.len() {
                    assert(self@[i] == olds[i] && self@[j] == olds[j]);
                } else {
                    assert(self@[i] == olds[i]);
                }
            }
        }
        true
    }

    /// Zero-or-one lookup by identifier: the first record carrying `id`,
    /// absent exactly when no record carries it.
    pub fn select_mother_tongue(&self, id: MotherTongueRecordId) -> (r: Option<MotherTongue>)
        ensures
            match r {
                Some(t) => exists|i: int| 0 <= i < self@.len() && self@[i] == t@ && t@.id == id,
                None => forall|i: int| 0 <= i < self@.len() ==> (#[trigger] self@[i]).id != id,
            },
    {
        let n = self.tongues.len();
        for i in 0..n
            invariant
                n == self@.len(),
                forall|j: int| 0 <= j < i ==> (#[trigger] self@[j]).id != id,
        {
            if self.tongues[i].id == id {
                let t = self.tongues[i].duplicate();
                proof {
                    let gi = i as int;
                    assert(0 <= gi < self@.len() && self@[gi] == t@ && t@.id == id);
                }
                return Some(t);
            }
        }
        None
    }

    /// Answers one catalog read: the page at `offset` of at most `count`
    /// records, and the total matching count for pagination.
    ///
    /// With no term the stable insertion order is paged and the total is
    /// the full table cardinality. With a term the positive matches are
    /// paged by descending relevance, ties in stable order, and the total
    /// counts only them. A zero `count` gives an empty page, and an
    /// `offset` beyond the total an empty page, each with the total still
    /// correct.
    #[verifier::loop_isolation(false)]
    pub fn select_mother_tongues(&self, term: Option<String>, offset: u32, count: u32) -> (r: (
        Vec<MotherTongue>,
        usize,
    ))
        ensures
            term is None ==> (r.1 == self@.len() && r.0.deep_view() == page_of(
                self@,
                offset,
                count,
            )),
            term matches Some(t) ==> ({
                let rk = ranked(self@, lower_of(t@));
                &&& r.1 == rk.len()
                &&& r.0.deep_view() == page_of(rk, offset, count)
            }),
    {
        match term {
            None => {
                let total = self.tongues.len();
                let page = copy_page(&self.tongues, offset, count);
                (page, total)
            },
            Some(t) => {
                let tl = lowercase(t.as_str());
                let ghost term_lower = lower_of(t@);
                let ghost p3 = |x: MotherTongueView| relevance(x, term_lower) == 3;
                let ghost p2 = |x: MotherTongueView| relevance(x, term_lower) == 2;
                let ghost p1 = |x: MotherTongueView| relevance(x, term_lower) == 1;
                let mut b3: Vec<MotherTongue> = Vec::new();
                let mut b2: Vec<MotherTongue> = Vec::new();
                let mut b1: Vec<MotherTongue> = Vec::new();
                let n = self.tongues.len();
                for i in 0..n
                    invariant
                        b3.deep_view() == self@.take(i as int).filter(p3),
                        b2.deep_view() == self@.take(i as int).filter(p2),
                        b1.deep_view() == self@.take(i as int).filter(p1),
                {
                    let name_lower = lowercase(self.tongues[i].name.as_str());
                    let desc_lower = lowercase(self.tongues[i].description.as_str());
                    let nm = contains_substr(name_lower.as_str(), tl.as_str());
                    let dm = contains_substr(desc_lower.as_str(), tl.as_str());
                    proof {
                        assert(nm == contains_seq(lower_of(self@[i as int].name), term_lower));
                        assert(dm == contains_seq(
                            lower_of(self@[i as int].description),
                            term_lower,
                        ));
                        lemma_filter_push(self@.take(i as int), self@[i as int], p3);
                        lemma_filter_push(self@.take(i as int), self@[i as int], p2);
                        lemma_filter_push(self@.take(i as int), self@[i as int], p1);
                        assert(self@.take(i as int).push(self@[i as int]) =~= self@.take(i + 1));
                    }
                    if nm && dm {
                        b3.push(self.tongues[i].duplicate());
                        proof {
                            assert(b3.deep_view() =~= self@.take(i + 1).filter(p3));
                        }
                    } else if nm {
                        b2.push(self.tongues[i].duplicate());
                        proof {
                            assert(b2.deep_view() =~= self@.take(i + 1).filter(p2));
                        }
                    } else if dm {
                        b1.push(self.tongues[i].duplicate());
                        proof {
                            assert(b1.deep_view() =~= self@.take(i + 1).filter(p1));
                        }
                    }
                }
                proof {
                    assert(self@.take(n as int) =~= self@);
                }
                let ghost d3 = b3.deep_view();
                let ghost d2 = b2.deep_view();
                let ghost d1 = b1.deep_view();
                let mut all = b3;
                all.append(&mut b2);
                all.append(&mut b1);
                proof {
                    assert(all.deep_view() =~= d3 + d2 + d1);
                    assert(all.deep_view() == ranked(self@, term_lower));
                }
                let total = all.len();
                let page = copy_page(&all, offset, count);
                (page, total)
            },
        }
    }
}

} // verus!
