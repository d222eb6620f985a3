//! The postings accumulator: per term, the ordered list of documents that
//! contain it.
//!
//! Entries are kept sorted by term so that serialization emits the dictionary
//! in lexicographic (field ordinal, payload bytes) order; each posting list
//! is strictly ascending in document ordinal and free of duplicates.

use vstd::prelude::*;

use crate::schema::DocId;
use crate::serializer::{SegmentSerializer, SegmentSerializerModel};
use crate::term::{
    lemma_term_lt_irrefl, lemma_term_lt_total, lemma_term_lt_trans, term_cmp_lt, term_key_eq,
    term_lt, Term, TermModel,
};

verus! {

/// Entries are strictly sorted by term.
pub open spec fn sorted_by_term(s: Seq<(TermModel, Seq<DocId>)>) -> bool {
    forall|i: int, j: int| 0 <= i < j < s.len() ==> term_lt(s[i].0, s[j].0)
}

/// Document ordinals strictly ascending: sorted and duplicate-free.
pub open spec fn strictly_ascending(d: Seq<DocId>) -> bool {
    forall|i: int, j: int| #![trigger d[i], d[j]] 0 <= i < j < d.len() ==> d[i] < d[j]
}

/// Every document ordinal of every entry is at most `bound`.
pub open spec fn doc_ids_below(s: Seq<(TermModel, Seq<DocId>)>, bound: DocId) -> bool {
    forall|i: int, j: int|
        #![trigger s[i].1[j]]
        0 <= i < s.len() && 0 <= j < s[i].1.len() ==> s[i].1[j] <= bound
}

/// Well-formed accumulator contents: term-sorted, and every posting list
/// nonempty and strictly ascending.
pub open spec fn postings_wf(s: Seq<(TermModel, Seq<DocId>)>) -> bool {
    &&& sorted_by_term(s)
    &&& forall|i: int| 0 <= i < s.len() ==> (#[trigger] s[i]).1.len() > 0
    &&& forall|i: int| 0 <= i < s.len() ==> strictly_ascending((#[trigger] s[i]).1)
}

/// The entries read as a mapping from term to posting list.
pub open spec fn postings_map(s: Seq<(TermModel, Seq<DocId>)>) -> Map<TermModel, Seq<DocId>>
    decreases s.len(),
{
    if s.len() == 0 {
        Map::empty()
    } else {
        postings_map(s.drop_last()).insert(s.last().0, s.last().1)
    }
}

/// What one subscription does to the mapping: appends the document to the
/// term's list, starting the list when the term is new and coalescing a
/// repeated subscription of the same document.
pub open spec fn spec_subscribe(
    m: Map<TermModel, Seq<DocId>>,
    doc_id: DocId,
    key: TermModel,
) -> Map<TermModel, Seq<DocId>> {
    if m.dom().contains(key) {
        if m[key].len() > 0 && m[key].last() == doc_id {
            m
        } else {
            m.insert(key, m[key].push(doc_id))
        }
    } else {
        m.insert(key, seq![doc_id])
    }
}

/// An entry whose key recurs nowhere later is what the mapping holds for it.
proof fn lemma_postings_map_index(s: Seq<(TermModel, Seq<DocId>)>, i: int)
    requires
        0 <= i < s.len(),
        forall|j: int| i < j < s.len() ==> (#[trigger] s[j]).0 != s[i].0,
    ensures
        postings_map(s).dom().contains(s[i].0),
        postings_map(s)[s[i].0] == s[i].1,
    decreases s.len(),
{
    if i < s.len() - 1 {
        assert(s.last().0 != s[i].0);
        assert forall|j: int| i < j < s.drop_last().len() implies (#[trigger] s.drop_last()[j]).0
            != s.drop_last()[i].0 by {
            assert(s.drop_last()[j] == s[j]);
        }
        lemma_postings_map_index(s.drop_last(), i);
    }
}

/// A key held by no entry is not in the mapping.
proof fn lemma_postings_map_absent(s: Seq<(TermModel, Seq<DocId>)>, k: TermModel)
    requires
        forall|j: int| 0 <= j < s.len() ==> (#[trigger] s[j]).0 != k,
    ensures
        !postings_map(s).dom().contains(k),
    decreases s.len(),
{
    if s.len() > 0 {
        assert forall|j: int| 0 <= j < s.drop_last().len() implies (#[trigger] s.drop_last()[j]).0
            != k by {
            assert(s.drop_last()[j] == s[j]);
        }
        lemma_postings_map_absent(s.drop_last(), k);
    }
}

/// Replacing the list of one entry is one `insert` on the mapping.
proof fn lemma_postings_map_update(s: Seq<(TermModel, Seq<DocId>)>, i: int, d: Seq<DocId>)
    requires
        0 <= i < s.len(),
        forall|p: int, q: int| 0 <= p < q < s.len() ==> (#[trigger] s[p]).0 != (#[trigger] s[q]).0,
    ensures
        postings_map(s.update(i, (s[i].0, d))) == postings_map(s).insert(s[i].0, d),
    decreases s.len(),
{
    let k = s[i].0;
    let s2 = s.update(i, (k, d));
    if i == s.len() - 1 {
        assert(s2.drop_last() =~= s.drop_last());
        assert(s2.last() == (k, d));
        assert(postings_map(s2) == postings_map(s.drop_last()).insert(k, d));
        assert(postings_map(s).insert(k, d) =~= postings_map(s.drop_last()).insert(k, d));
    } else {
        assert(s2.drop_last() =~= s.drop_last().update(i, (k, d)));
        assert(s2.last() == s.last());
        assert(s.drop_last()[i] == s[i]);
        assert forall|p: int, q: int|
            0 <= p < q < s.drop_last().len() implies (#[trigger] s.drop_last()[p]).0
            != (#[trigger] s.drop_last()[q]).0 by {
            assert(s.drop_last()[p] == s[p] && s.drop_last()[q] == s[q]);
        }
        lemma_postings_map_update(s.drop_last(), i, d);
        assert(s.last().0 != k);
        assert(postings_map(s.drop_last()).insert(k, d).insert(s.last().0, s.last().1)
            =~= postings_map(s.drop_last()).insert(s.last().0, s.last().1).insert(k, d));
        assert(postings_map(s2) == postings_map(s.drop_last().update(i, (k, d))).insert(
            s.last().0,
            s.last().1,
        ));
        assert(postings_map(s).insert(k, d) == postings_map(s.drop_last()).insert(
            s.last().0,
            s.last().1,
        ).insert(k, d));
    }
}

/// Inserting an entry with a fresh key is one `insert` on the mapping.
proof fn lemma_postings_map_insert(
    s: Seq<(TermModel, Seq<DocId>)>,
    i: int,
    e: (TermModel, Seq<DocId>),
)
    requires
        0 <= i <= s.len(),
        forall|j: int| 0 <= j < s.len() ==> (#[trigger] s[j]).0 != e.0,
    ensures
        postings_map(s.insert(i, e)) == postings_map(s).insert(e.0, e.1),
    decreases s.len(),
{
    let s2 = s.insert(i, e);
    s.insert_ensures(i, e);
    if i == s.len() {
        assert(s2.drop_last() =~= s);
        assert(s2.last() == e);
    } else {
        assert(s2.last() == s.last());
        assert(s2.drop_last() =~= s.drop_last().insert(i, e)) by {
            s.drop_last().insert_ensures(i, e);
        }
        assert forall|j: int| 0 <= j < s.drop_last().len() implies (#[trigger] s.drop_last()[j]).0
            != e.0 by {
            assert(s.drop_last()[j] == s[j]);
        }
        lemma_postings_map_insert(s.drop_last(), i, e);
        assert(s.last().0 != e.0);
        assert(postings_map(s.drop_last()).insert(e.0, e.1).insert(s.last().0, s.last().1)
            =~= postings_map(s.drop_last()).insert(s.last().0, s.last().1).insert(e.0, e.1));
        assert(postings_map(s2) == postings_map(s.drop_last().insert(i, e)).insert(
            s.last().0,
            s.last().1,
        ));
    }
}

/// Sorted entries have pairwise distinct keys.
proof fn lemma_sorted_keys_distinct(s: Seq<(TermModel, Seq<DocId>)>)
    requires
        sorted_by_term(s),
    ensures
        forall|p: int, q: int| 0 <= p < q < s.len() ==> (#[trigger] s[p]).0 != (#[trigger] s[q]).0,
{
    assert forall|p: int, q: int|
        0 <= p < q < s.len() implies (#[trigger] s[p]).0 != (#[trigger] s[q]).0 by {
        lemma_term_lt_irrefl(s[p].0);
    }
}

/// In-memory accumulator mapping each term to the ordered list of documents
/// that contain it.
pub struct PostingsWriter {
    entries: Vec<(Term, Vec<DocId>)>,
}

impl View for PostingsWriter {
    type V = Seq<(TermModel, Seq<DocId>)>;

    closed spec fn view(&self) -> Seq<(TermModel, Seq<DocId>)> {
        self.entries@.map_values(|e: (Term, Vec<DocId>)| (e.0@, e.1@))
    }
}

impl PostingsWriter {
    /// The accumulated contents as a mapping from term to posting list.
    pub open spec fn as_map(self) -> Map<TermModel, Seq<DocId>> {
        postings_map(self@)
    }

    pub fn new() -> (w: PostingsWriter)
        ensures
            w@ == Seq::<(TermModel, Seq<DocId>)>::empty(),
            postings_wf(w@),
    {
        let w = PostingsWriter { entries: Vec::new() };
        proof {
            assert(w@ =~= Seq::<(TermModel, Seq<DocId>)>::empty());
        }
        w
    }

    /// Records that `term` occurs in document `doc_id`.  Within one segment
    /// the builder subscribes documents in non-decreasing order, which the
    /// bound below captures; a repeated (document, term) pair is coalesced.
    pub fn subscribe(&mut self, doc_id: DocId, term: Term)
        requires
            postings_wf(old(self)@),
            doc_ids_below(old(self)@, doc_id),
        ensures
            postings_wf(final(self)@),
            doc_ids_below(final(self)@, doc_id),
            final(self).as_map() == spec_subscribe(old(self).as_map(), doc_id, term@),
    {
        proof {
            lemma_sorted_keys_distinct(self@);
        }
        let n = self.entries.len();
        let mut i: usize = 0;
        while i < n && term_cmp_lt(&self.entries[i].0, &term)
            invariant
                n == self.entries@.len(),
                i <= n,
                self == old(self),
                postings_wf(self@),
                forall|j: int| 0 <= j < i ==> term_lt((#[trigger] self@[j]).0, term@),
            decreases n - i,
        {
            proof {
                assert(self@[i as int].0 == self.entries@[i as int].0@);
            }
            i = i + 1;
        }
        proof {
            assert(forall|j: int|
                0 <= j < i ==> term_lt((#[trigger] self@[j]).0, term@));
            if i < n {
                assert(self@[i as int].0 == self.entries@[i as int].0@);
                assert(!term_lt(self@[i as int].0, term@));
            }
        }
        if i < n && term_key_eq(&self.entries[i].0, &term) {
            // The term is present: extend its list unless this document is
            // already its last entry.
            let ghost s0 = self@;
            let ghost k = term@;
            proof {
                assert(s0[i as int].0 == k);
                lemma_postings_map_index(s0, i as int);
            }
            let docs_len = self.entries[i].1.len();
            proof {
                assert(self@[i as int].1 == self.entries@[i as int].1@);
                assert(docs_len > 0);
            }
            let last = self.entries[i].1[docs_len - 1];
            if last == doc_id {
                proof {
                    assert(s0[i as int].1.last() == doc_id);
                    assert(spec_subscribe(postings_map(s0), doc_id, k) == postings_map(s0));
                }
                return ;
            }
            self.entries[i].1.push(doc_id);
            proof {
                let s1 = self@;
                assert(s1 =~= s0.update(i as int, (k, s0[i as int].1.push(doc_id))));
                lemma_postings_map_update(s0, i as int, s0[i as int].1.push(doc_id));
                assert(s0[i as int].1.last() != doc_id);
                assert(postings_map(s1) == spec_subscribe(postings_map(s0), doc_id, k));
                assert forall|p: int| 0 <= p < s1.len() implies strictly_ascending(
                    (#[trigger] s1[p]).1,
                ) && s1[p].1.len() > 0 by {
                    if p == i {
                        let d0 = s0[i as int].1;
                        let d1 = s1[p].1;
                        assert(d1 =~= d0.push(doc_id));
                        assert(d0[d0.len() - 1] != doc_id);
                        assert(d0[d0.len() - 1] <= doc_id);
                        assert forall|a: int, b: int|
                            #![trigger d1[a], d1[b]]
                            0 <= a < b < d1.len() implies d1[a] < d1[b] by {
                            if b == d1.len() - 1 {
                                assert(d1[a] == d0[a]);
                                if a < d0.len() - 1 {
                                    assert(d0[a] < d0[d0.len() - 1]);
                                }
                            } else {
                                assert(d1[a] == d0[a] && d1[b] == d0[b]);
                            }
                        }
                    } else {
                        assert(s1[p] == s0[p]);
                    }
                }
                assert forall|p: int, q: int| 0 <= p < q < s1.len() implies term_lt(
                    s1[p].0,
                    s1[q].0,
                ) by {
                    assert(s1[p].0 == s0[p].0 && s1[q].0 == s0[q].0);
                }
                assert forall|p: int, q: int|
                    #![trigger s1[p].1[q]]
                    0 <= p < s1.len() && 0 <= q < s1[p].1.len() implies s1[p].1[q]
                    <= doc_id by {
                    if p != i {
                        assert(s1[p] == s0[p]);
                    }
                }
            }
        } else {
            // The term is new: insert it at its sorted position.
            let ghost s0 = self@;
            let ghost k = term@;
            proof {
                if i < n {
                    lemma_term_lt_total(s0[i as int].0, k);
                    assert(s0[i as int].0 != k);
                    assert(term_lt(k, s0[i as int].0));
                }
                assert forall|j: int| 0 <= j < s0.len() implies (#[trigger] s0[j]).0 != k by {
                    if j < i {
                        lemma_term_lt_irrefl(k);
                        if s0[j].0 == k {
                            assert(term_lt(k, k));
                        }
                    } else if j == i {
                    } else {
                        assert(term_lt(s0[i as int].0, s0[j].0));
                        lemma_term_lt_trans(k, s0[i as int].0, s0[j].0);
                        lemma_term_lt_irrefl(k);
                        if s0[j].0 == k {
                            assert(term_lt(k, k));
                        }
                    }
                }
                lemma_postings_map_absent(s0, k);
            }
            let mut doc_ids: Vec<DocId> = Vec::new();
            doc_ids.push(doc_id);
            let ghost ev0 = self.entries@;
            self.entries.insert(i, (term, doc_ids));
            proof {
                let s1 = self@;
                let ev1 = self.entries@;
                let e = (k, seq![doc_id]);
                s0.insert_ensures(i as int, e);
                ev0.insert_ensures(i as int, (term, doc_ids));
                assert(ev1 == ev0.insert(i as int, (term, doc_ids)));
                assert((term, doc_ids).0@ == k);
                assert((term, doc_ids).1@ =~= seq![doc_id]);
                assert forall|j: int| 0 <= j < s1.len() implies s1[j] == s0.insert(
                    i as int,
                    e,
                )[j] by {
                    assert(s1[j] == (ev1[j].0@, ev1[j].1@));
                    if j < i {
                        assert(ev1[j] == ev0[j]);
                        assert(s0[j] == (ev0[j].0@, ev0[j].1@));
                    } else if j == i {
                        assert(ev1[j] == (term, doc_ids));
                    } else {
                        assert(ev1[j] == ev0[j - 1]);
                        assert(s0[j - 1] == (ev0[j - 1].0@, ev0[j - 1].1@));
                    }
                }
                assert(s1 =~= s0.insert(i as int, e));
                lemma_postings_map_insert(s0, i as int, e);
                assert(postings_map(s1) == spec_subscribe(postings_map(s0), doc_id, k));
                assert forall|p: int, q: int| 0 <= p < q < s1.len() implies term_lt(
                    s1[p].0,
                    s1[q].0,
                ) by {
                    if p < i && q < i {
                        assert(s1[p] == s0[p] && s1[q] == s0[q]);
                    } else if p < i && q == i {
                        assert(s1[p] == s0[p] && s1[q] == e);
                        assert(term_lt(s0[p].0, k));
                    } else if p < i && q > i {
                        assert(s1[p] == s0[p] && s1[q] == s0[q - 1]);
                        assert(p < i <= q - 1);
                        assert(term_lt(s0[p].0, s0[q - 1].0));
                    } else if p == i {
                        assert(s1[p] == e && s1[q] == s0[q - 1]);
                        assert(i <= q - 1 < s0.len());
                        if q - 1 == i {
                            assert(term_lt(k, s0[i as int].0));
                        } else {
                            assert(term_lt(k, s0[i as int].0));
                            assert(term_lt(s0[i as int].0, s0[q - 1].0));
                            lemma_term_lt_trans(k, s0[i as int].0, s0[q - 1].0);
                        }
                    } else {
                        assert(s1[p] == s0[p - 1] && s1[q] == s0[q - 1]);
                        assert(term_lt(s0[p - 1].0, s0[q - 1].0));
                    }
                }
                assert forall|p: int| 0 <= p < s1.len() implies (#[trigger] s1[p]).1.len() > 0
                    && strictly_ascending(s1[p].1) by {
                    if p < i {
                        assert(s1[p] == s0[p]);
                    } else if p == i {
                        assert(s1[p] == e);
                    } else {
                        assert(s1[p] == s0[p - 1]);
                    }
                }
                assert forall|p: int, q: int|
                    #![trigger s1[p].1[q]]
                    0 <= p < s1.len() && 0 <= q < s1[p].1.len() implies s1[p].1[q]
                    <= doc_id by {
                    if p < i {
                        assert(s1[p] == s0[p]);
                    } else if p == i {
                        assert(s1[p] == e);
                    } else {
                        assert(s1[p] == s0[p - 1]);
                    }
                }
            }
        }
    }

    /// Drains the accumulated terms, in sorted order, into the postings
    /// stream of `serializer`: the appended blocks are exactly the entries,
    /// term-sorted, each list strictly ascending.
    pub fn serialize(&self, serializer: &mut SegmentSerializer)
        requires
            postings_wf(self@),
            !old(serializer)@.sealed,
        ensures
            final(serializer)@ == (SegmentSerializerModel {
                postings: old(serializer)@.postings + self@,
                ..old(serializer)@
            }),
    {
        let n = self.entries.len();
        let mut i: usize = 0;
        while i < n
            invariant
                n == self.entries@.len(),
                i <= n,
                !serializer@.sealed,
                serializer@ == (SegmentSerializerModel {
                    postings: old(serializer)@.postings + self@.take(i as int),
                    ..old(serializer)@
                }),
            decreases n - i,
        {
            let term = self.entries[i].0.duplicate();
            let doc_ids = crate::term::copy_vec(&self.entries[i].1);
            proof {
                assert(self@[i as int] == (self.entries@[i as int].0@, self.entries@[i as int].1@));
            }
            serializer.write_postings(term, doc_ids);
            i = i + 1;
            proof {
                assert(old(serializer)@.postings + self@.take(i - 1).push(self@[i - 1])
                    =~= old(serializer)@.postings + self@.take(i as int));
            }
        }
        proof {
            assert(self@.take(n as int) =~= self@);
        }
    }

    /// Number of distinct terms accumulated so far.
    pub fn num_terms(&self) -> (r: usize)
        ensures
            r == self@.len(),
    {
        self.entries.len()
    }
}

} // verus!
