//! The segment serializer: the sink a segment is sealed into.
//!
//! It accumulates the postings stream, the fast-field columns, the
//! stored-field stream and the segment metadata, and enforces their ordering:
//! everything is written before `close`, the metadata exactly once, and a
//! closed serializer accepts nothing more.  Writing the accumulated streams
//! out as bytes is the caller's affair.

use vstd::prelude::*;

use crate::schema::{DocId, Field, TextFieldValue, TextValueModel};
use crate::term::{Term, TermModel};

verus! {

/// Identity of an on-disk unit of the index.
#[derive(Clone, Copy, PartialEq, Eq, Structural, Debug)]
pub struct Segment {
    pub id: u32,
}

/// Segment-level metadata: the number of documents.
#[derive(Clone, Copy, PartialEq, Eq, Structural, Debug)]
pub struct SegmentInfo {
    pub max_doc: DocId,
}

/// Mathematical model of a `SegmentSerializer`.
pub struct SegmentSerializerModel {
    pub segment: Segment,
    pub postings: Seq<(TermModel, Seq<DocId>)>,
    pub fast_fields: Seq<(usize, Seq<u32>)>,
    pub stored: Seq<Seq<TextValueModel>>,
    pub info: Option<SegmentInfo>,
    pub sealed: bool,
}

/// In-memory sink for one segment.
pub struct SegmentSerializer {
    segment: Segment,
    postings: Vec<(Term, Vec<DocId>)>,
    fast_fields: Vec<(Field, Vec<u32>)>,
    stored: Vec<Vec<TextFieldValue>>,
    info: Option<SegmentInfo>,
    sealed: bool,
}

impl View for SegmentSerializer {
    type V = SegmentSerializerModel;

    closed spec fn view(&self) -> SegmentSerializerModel {
        SegmentSerializerModel {
            segment: self.segment,
            postings: self.postings@.map_values(|e: (Term, Vec<DocId>)| (e.0@, e.1@)),
            fast_fields: self.fast_fields@.map_values(|e: (Field, Vec<u32>)| (e.0.ord, e.1@)),
            stored: self.stored@.map_values(
                |d: Vec<TextFieldValue>| d@.map_values(|v: TextFieldValue| v@),
            ),
            info: self.info,
            sealed: self.sealed,
        }
    }
}

impl SegmentSerializer {
    /// A fresh, open serializer for `segment`.
    pub fn for_segment(segment: Segment) -> (s: SegmentSerializer)
        ensures
            s@.segment == segment,
            s@.postings == Seq::<(TermModel, Seq<DocId>)>::empty(),
            s@.fast_fields == Seq::<(usize, Seq<u32>)>::empty(),
            s@.stored == Seq::<Seq<TextValueModel>>::empty(),
            s@.info is None,
            !s@.sealed,
    {
        let s = SegmentSerializer {
            segment,
            postings: Vec::new(),
            fast_fields: Vec::new(),
            stored: Vec::new(),
            info: None,
            sealed: false,
        };
        proof {
            assert(s@.postings =~= Seq::<(TermModel, Seq<DocId>)>::empty());
            assert(s@.fast_fields =~= Seq::<(usize, Seq<u32>)>::empty());
            assert(s@.stored =~= Seq::<Seq<TextValueModel>>::empty());
        }
        s
    }

    /// The segment this serializer writes to.
    pub fn segment(&self) -> (s: Segment)
        ensures
            s == self@.segment,
    {
        self.segment
    }

    /// Appends one term's posting list to the postings stream; the term
    /// dictionary is the order of these appends.
    pub fn write_postings(&mut self, term: Term, doc_ids: Vec<DocId>)
        requires
            !old(self)@.sealed,
        ensures
            final(self)@ == (SegmentSerializerModel {
                postings: old(self)@.postings.push((term@, doc_ids@)),
                ..old(self)@
            }),
    {
        self.postings.push((term, doc_ids));
        proof {
            assert(self@.postings =~= old(self)@.postings.push((term@, doc_ids@)));
            assert(self@ == (SegmentSerializerModel {
                postings: old(self)@.postings.push((term@, doc_ids@)),
                ..old(self)@
            }));
        }
    }

    /// Appends one fast-field column.
    pub fn write_fast_field(&mut self, field: Field, column: Vec<u32>)
        requires
            !old(self)@.sealed,
        ensures
            final(self)@ == (SegmentSerializerModel {
                fast_fields: old(self)@.fast_fields.push((field.ord, column@)),
                ..old(self)@
            }),
    {
        self.fast_fields.push((field, column));
        proof {
            assert(self@.fast_fields =~= old(self)@.fast_fields.push((field.ord, column@)));
            assert(self@ == (SegmentSerializerModel {
                fast_fields: old(self)@.fast_fields.push((field.ord, column@)),
                ..old(self)@
            }));
        }
    }

    /// Appends one document's stored field values to the stored-field
    /// stream; must be called once per document, in document order.
    pub fn store_doc(&mut self, doc_fields: Vec<TextFieldValue>)
        requires
            !old(self)@.sealed,
        ensures
            final(self)@ == (SegmentSerializerModel {
                stored: old(self)@.stored.push(
                    doc_fields@.map_values(|v: TextFieldValue| v@),
                ),
                ..old(self)@
            }),
    {
        self.stored.push(doc_fields);
        proof {
            assert(self@.stored =~= old(self)@.stored.push(
                doc_fields@.map_values(|v: TextFieldValue| v@),
            ));
            assert(self@ == (SegmentSerializerModel {
                stored: old(self)@.stored.push(
                    doc_fields@.map_values(|v: TextFieldValue| v@),
                ),
                ..old(self)@
            }));
        }
    }

    /// Writes the segment metadata, exactly once, before `close`.
    pub fn write_segment_info(&mut self, info: SegmentInfo)
        requires
            !old(self)@.sealed,
            old(self)@.info is None,
        ensures
            final(self)@ == (SegmentSerializerModel { info: Some(info), ..old(self)@ }),
    {
        self.info = Some(info);
        proof {
            assert(self@ == (SegmentSerializerModel { info: Some(info), ..old(self)@ }));
        }
    }

    /// Seals the serializer; the metadata must have been written, and no
    /// stream accepts anything afterwards.
    pub fn close(&mut self)
        requires
            !old(self)@.sealed,
            old(self)@.info is Some,
        ensures
            final(self)@ == (SegmentSerializerModel { sealed: true, ..old(self)@ }),
    {
        self.sealed = true;
        proof {
            assert(self@ == (SegmentSerializerModel { sealed: true, ..old(self)@ }));
        }
    }

    /// The segment metadata, once written.
    pub fn segment_info(&self) -> (r: Option<SegmentInfo>)
        ensures
            r == self@.info,
    {
        match self.info {
            Some(i) => Some(i),
            None => None,
        }
    }

    /// Number of terms in the postings stream.
    pub fn num_terms(&self) -> (n: usize)
        ensures
            n == self@.postings.len(),
    {
        self.postings.len()
    }

    /// The term of the `i`-th posting block.
    pub fn term_at(&self, i: usize) -> (t: &Term)
        requires
            i < self@.postings.len(),
        ensures
            t@ == self@.postings[i as int].0,
    {
        &self.postings[i].0
    }

    /// The posting list of the `i`-th posting block.
    pub fn doc_ids_at(&self, i: usize) -> (d: &Vec<DocId>)
        requires
            i < self@.postings.len(),
        ensures
            d@ == self@.postings[i as int].1,
    {
        &self.postings[i].1
    }

    /// Number of fast-field columns.
    pub fn num_fast_fields(&self) -> (n: usize)
        ensures
            n == self@.fast_fields.len(),
    {
        self.fast_fields.len()
    }

    /// The `i`-th fast-field column and its field.
    pub fn fast_field_at(&self, i: usize) -> (c: &(Field, Vec<u32>))
        requires
            i < self@.fast_fields.len(),
        ensures
            c.0.ord == self@.fast_fields[i as int].0,
            c.1@ == self@.fast_fields[i as int].1,
    {
        &self.fast_fields[i]
    }

    /// Number of documents in the stored-field stream.
    pub fn num_stored_docs(&self) -> (n: usize)
        ensures
            n == self@.stored.len(),
    {
        self.stored.len()
    }

    /// The stored field values of the `i`-th document.
    pub fn stored_doc_at(&self, i: usize) -> (d: &Vec<TextFieldValue>)
        requires
            i < self@.stored.len(),
        ensures
            d@.map_values(|v: TextFieldValue| v@) == self@.stored[i as int],
    {
        &self.stored[i]
    }
}

} // verus!
