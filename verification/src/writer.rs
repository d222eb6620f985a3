//! The per-segment builder and the sequential core of the ingestion
//! pipeline.
//!
//! A `SegmentWriter` owns one postings accumulator, one fast-field
//! accumulator and one segment serializer; it assigns dense document
//! ordinals, tokenizes indexed text into term subscriptions, and seals the
//! segment exactly once.  `index_batch` is the document loop a pipeline
//! worker runs: it rolls a new segment every `SEGMENT_ROLL` documents, so
//! the sealed segments of a batch partition its documents.

use vstd::prelude::*;

use crate::analyzer::{tokens_of, SimpleTokenizer};
use crate::fastfield::{fast_field_ords, first_u32_value, U32FastFieldsWriter};
use crate::postings::{
    doc_ids_below, postings_map, postings_wf, spec_subscribe, PostingsWriter,
};
use crate::schema::{
    doc_valid, is_text_at, is_u32_at, text_options_at, u32_options_at, DocId, Document,
    DocumentModel, FieldEntry, FieldEntryModel, Schema, TextFieldValue, TextValueModel,
    U32FieldValue,
};
use crate::serializer::{Segment, SegmentInfo, SegmentSerializer, SegmentSerializerModel};
use crate::term::{text_term, u32_term, Term, TermModel};

verus! {

/// A worker rolls a fresh segment after this many documents.
pub const SEGMENT_ROLL: u32 = 500;

/// Every document ordinal of every posting entry is strictly below `bound`.
pub open spec fn doc_ids_lt(s: Seq<(TermModel, Seq<DocId>)>, bound: DocId) -> bool {
    forall|i: int, j: int|
        #![trigger s[i].1[j]]
        0 <= i < s.len() && 0 <= j < s[i].1.len() ==> s[i].1[j] < bound
}

/// Folding a run of subscriptions for one document over the postings
/// mapping, left to right.
pub open spec fn subscribe_seq(
    m: Map<TermModel, Seq<DocId>>,
    doc_id: DocId,
    keys: Seq<TermModel>,
) -> Map<TermModel, Seq<DocId>>
    decreases keys.len(),
{
    if keys.len() == 0 {
        m
    } else {
        spec_subscribe(subscribe_seq(m, doc_id, keys.drop_last()), doc_id, keys.last())
    }
}

proof fn lemma_subscribe_push(
    m: Map<TermModel, Seq<DocId>>,
    doc_id: DocId,
    keys: Seq<TermModel>,
    k: TermModel,
)
    ensures
        subscribe_seq(m, doc_id, keys.push(k)) == spec_subscribe(
            subscribe_seq(m, doc_id, keys),
            doc_id,
            k,
        ),
{
    assert(keys.push(k).drop_last() =~= keys);
    assert(keys.push(k).last() == k);
}

/// The terms of one run of tokens for one field.
pub open spec fn token_terms(field_ord: usize, toks: Seq<Seq<char>>) -> Seq<TermModel> {
    toks.map_values(|t: Seq<char>| text_term(field_ord, t))
}

/// The term subscriptions one text value produces: one per token, when the
/// field is indexed and tokenized, none otherwise.
pub open spec fn value_terms(v: TextValueModel, s: Seq<FieldEntryModel>) -> Seq<TermModel> {
    if is_text_at(s, v.field as int) && text_options_at(s, v.field as int).indexed
        && text_options_at(s, v.field as int).tokenized {
        token_terms(v.field, tokens_of(v.text))
    } else {
        Seq::empty()
    }
}

/// The term subscriptions of a document's text values, in document order.
pub open spec fn text_terms(vals: Seq<TextValueModel>, s: Seq<FieldEntryModel>) -> Seq<TermModel>
    decreases vals.len(),
{
    if vals.len() == 0 {
        Seq::empty()
    } else {
        text_terms(vals.drop_last(), s) + value_terms(vals.last(), s)
    }
}

/// The term subscriptions of a document's u32 values, in document order.
pub open spec fn u32_terms(vals: Seq<U32FieldValue>, s: Seq<FieldEntryModel>) -> Seq<TermModel>
    decreases vals.len(),
{
    if vals.len() == 0 {
        Seq::empty()
    } else {
        u32_terms(vals.drop_last(), s) + (
        if is_u32_at(s, vals.last().field.ord as int) && u32_options_at(
            s,
            vals.last().field.ord as int,
        ).indexed {
            seq![u32_term(vals.last().field.ord, vals.last().value)]
        } else {
            Seq::empty()
        })
    }
}

/// All term subscriptions a document produces, in subscription order.
pub open spec fn doc_terms(d: DocumentModel, s: Seq<FieldEntryModel>) -> Seq<TermModel> {
    text_terms(d.text_values, s) + u32_terms(d.u32_values, s)
}

/// The document's text values of field `ord`, in document order.
pub open spec fn field_values(vals: Seq<TextValueModel>, ord: usize) -> Seq<TextValueModel>
    decreases vals.len(),
{
    if vals.len() == 0 {
        Seq::empty()
    } else if vals.last().field == ord {
        field_values(vals.drop_last(), ord).push(vals.last())
    } else {
        field_values(vals.drop_last(), ord)
    }
}

/// The stored-field emission of a document against the first `n` schema
/// slots: for each stored text field, in schema order, the document's
/// values of it in document order.
pub open spec fn stored_upto(d: DocumentModel, s: Seq<FieldEntryModel>, n: int) -> Seq<
    TextValueModel,
>
    decreases n,
{
    if n <= 0 {
        Seq::empty()
    } else {
        stored_upto(d, s, n - 1) + (
        if is_text_at(s, n - 1) && text_options_at(s, n - 1).stored {
            field_values(d.text_values, (n - 1) as usize)
        } else {
            Seq::empty()
        })
    }
}

/// What a document contributes to the stored-field stream.
pub open spec fn stored_values(d: DocumentModel, s: Seq<FieldEntryModel>) -> Seq<TextValueModel> {
    stored_upto(d, s, s.len() as int)
}

/// Per-segment builder: assigns document ordinals and feeds the postings,
/// fast-field and stored-field accumulators.
pub struct SegmentWriter {
    max_doc: DocId,
    tokenizer: SimpleTokenizer,
    postings_writer: PostingsWriter,
    segment_serializer: SegmentSerializer,
    fast_field_writers: U32FastFieldsWriter,
}

impl SegmentWriter {
    /// Number of documents added so far; the next document ordinal.
    pub closed spec fn doc_count(self) -> DocId {
        self.max_doc
    }

    /// The accumulated postings entries, term-sorted.
    pub closed spec fn postings_entries(self) -> Seq<(TermModel, Seq<DocId>)> {
        self.postings_writer@
    }

    /// The accumulated postings as a mapping from term to posting list.
    pub open spec fn postings(self) -> Map<TermModel, Seq<DocId>> {
        postings_map(self.postings_entries())
    }

    /// The accumulated fast-field columns.
    pub closed spec fn fast_fields(self) -> crate::fastfield::FastFieldsModel {
        self.fast_field_writers@
    }

    /// The stored-field stream accumulated so far.
    pub closed spec fn stored(self) -> Seq<Seq<TextValueModel>> {
        self.segment_serializer@.stored
    }

    /// The segment being built.
    pub closed spec fn segment_id(self) -> Segment {
        self.segment_serializer@.segment
    }

    /// Internal consistency of an open builder.
    pub closed spec fn inv(self) -> bool {
        &&& postings_wf(self.postings_writer@)
        &&& doc_ids_lt(self.postings_writer@, self.max_doc)
        &&& self.fast_field_writers.wf()
        &&& forall|i: int|
            0 <= i < self.fast_field_writers@.columns.len()
                ==> (#[trigger] self.fast_field_writers@.columns[i]).len() == self.max_doc
        &&& !self.segment_serializer@.sealed
        &&& self.segment_serializer@.info is None
        &&& self.segment_serializer@.stored.len() == self.max_doc
        &&& self.segment_serializer@.postings.len() == 0
        &&& self.segment_serializer@.fast_fields.len() == 0
    }

    /// The builder's fast-field layout is the one the schema declares.
    pub closed spec fn matches_schema(self, s: Seq<FieldEntryModel>) -> bool {
        self.fast_field_writers@.fields == fast_field_ords(s)
    }

    /// A fresh builder for `segment`, with one empty fast-field column per
    /// fast u32 field of the schema.
    pub fn for_segment(segment: Segment, schema: &Schema) -> (w: SegmentWriter)
        ensures
            w.inv(),
            w.matches_schema(schema@),
            w.doc_count() == 0,
            w.postings() == Map::<TermModel, Seq<DocId>>::empty(),
            w.stored() == Seq::<Seq<TextValueModel>>::empty(),
            w.segment_id() == segment,
            w.fast_fields().fields == fast_field_ords(schema@),
            w.fast_fields().columns.len() == w.fast_fields().fields.len(),
            forall|i: int|
                0 <= i < w.fast_fields().columns.len()
                    ==> (#[trigger] w.fast_fields().columns[i]).len() == 0,
    {
        let w = SegmentWriter {
            max_doc: 0,
            tokenizer: SimpleTokenizer::new(),
            postings_writer: PostingsWriter::new(),
            segment_serializer: SegmentSerializer::for_segment(segment),
            fast_field_writers: U32FastFieldsWriter::from_schema(schema),
        };
        w
    }

    /// The segment this builder writes to.
    pub fn segment(&self) -> (s: Segment)
        ensures
            s == self.segment_id(),
    {
        self.segment_serializer.segment()
    }

    /// Number of documents added so far.
    pub fn max_doc(&self) -> (n: DocId)
        ensures
            n == self.doc_count(),
    {
        self.max_doc
    }

    /// Indexes one document: assigns it the next ordinal, subscribes one
    /// term per token of each indexed-tokenized text value and one per
    /// indexed u32 value, appends every fast-field column, and emits the
    /// stored text values, in schema order, to the stored-field stream.
    pub fn add_document(&mut self, doc: &Document, schema: &Schema)
        requires
            old(self).inv(),
            old(self).matches_schema(schema@),
            doc_valid(doc@, schema@),
            old(self).doc_count() < u32::MAX,
        ensures
            final(self).inv(),
            final(self).matches_schema(schema@),
            final(self).doc_count() == old(self).doc_count() + 1,
            final(self).segment_id() == old(self).segment_id(),
            final(self).postings() == subscribe_seq(
                old(self).postings(),
                old(self).doc_count(),
                doc_terms(doc@, schema@),
            ),
            final(self).stored() == old(self).stored().push(stored_values(doc@, schema@)),
            final(self).fast_fields().fields == old(self).fast_fields().fields,
            final(self).fast_fields().columns.len() == old(self).fast_fields().columns.len(),
            forall|i: int|
                0 <= i < old(self).fast_fields().columns.len()
                    ==> (#[trigger] final(self).fast_fields().columns[i])
                    == old(self).fast_fields().columns[i].push(
                    first_u32_value(doc@.u32_values, old(self).fast_fields().fields[i]),
                ),
    {
        let doc_id = self.max_doc;
        let ghost m0 = self.postings();
        let ghost sv = schema@;
        let ghost dv = doc@;
        let ghost mut keys: Seq<TermModel> = Seq::empty();
        proof {
            assert forall|i: int, j: int|
                #![trigger self.postings_writer@[i].1[j]]
                0 <= i < self.postings_writer@.len() && 0 <= j
                    < self.postings_writer@[i].1.len() implies self.postings_writer@[i].1[j]
                <= doc_id by {}
        }
        let text_vals = crate::schema::Document::text_fields(doc);
        let tn = text_vals.len();
        let mut a: usize = 0;
        while a < tn
            invariant
                tn == text_vals@.len(),
                text_vals@.map_values(|v: TextFieldValue| v@) == dv.text_values,
                doc_valid(dv, sv),
                a <= tn,
                sv == schema@,
                dv == doc@,
                self.max_doc == doc_id,
                self.tokenizer == old(self).tokenizer,
                self.segment_serializer == old(self).segment_serializer,
                self.fast_field_writers == old(self).fast_field_writers,
                old(self).inv(),
                postings_wf(self.postings_writer@),
                doc_ids_below(self.postings_writer@, doc_id),
                keys == text_terms(dv.text_values.take(a as int), sv),
                self.postings() == subscribe_seq(m0, doc_id, keys),
            decreases tn - a,
        {
            let tv = &text_vals[a];
            proof {
                assert(tv@ == dv.text_values[a as int]);
                assert(is_text_at(sv, dv.text_values[a as int].field as int));
            }
            let field = tv.field;
            let options = schema.text_field_options(field);
            if options.is_tokenized_indexed() {
                let ghost full = tokens_of(tv.text@);
                let ghost base = keys;
                let mut ts = self.tokenizer.tokenize(tv.text.as_str());
                let ghost mut k: int = 0;
                let mut done = false;
                proof {
                    assert(full.take(0) =~= Seq::<Seq<char>>::empty());
                    assert(token_terms(field.ord, full.take(0)) =~= Seq::<TermModel>::empty());
                    assert(keys + token_terms(field.ord, full.take(0)) =~= keys);
                }
                while !done
                    invariant
                        0 <= k <= full.len(),
                        ts.wf(),
                        !done ==> ts.toks() == full.skip(k),
                        done ==> k == full.len(),
                        self.max_doc == doc_id,
                        self.tokenizer == old(self).tokenizer,
                        self.segment_serializer == old(self).segment_serializer,
                        self.fast_field_writers == old(self).fast_field_writers,
                        postings_wf(self.postings_writer@),
                        doc_ids_below(self.postings_writer@, doc_id),
                        keys == base + token_terms(field.ord, full.take(k)),
                        self.postings() == subscribe_seq(m0, doc_id, keys),
                    decreases full.len() - k + (if done { 0int } else { 1int }),
                {
                    match ts.next() {
                        Some(tok) => {
                            proof {
                                assert(full.skip(k)[0] == full[k]);
                            }
                            let term = Term::from_field_text(field, tok.as_str());
                            proof {
                                assert(term@ == text_term(field.ord, full[k]));
                                lemma_subscribe_push(m0, doc_id, keys, term@);
                            }
                            self.postings_writer.subscribe(doc_id, term);
                            proof {
                                keys = keys.push(text_term(field.ord, full[k]));
                                k = k + 1;
                                assert(full.skip(k - 1).drop_first() =~= full.skip(k));
                                assert(full.take(k).drop_last() =~= full.take(k - 1));
                                assert(token_terms(field.ord, full.take(k)) =~= token_terms(
                                    field.ord,
                                    full.take(k - 1),
                                ).push(text_term(field.ord, full[k - 1])));
                                assert(keys =~= base + token_terms(field.ord, full.take(k)));
                            }
                        },
                        None => {
                            done = true;
                        },
                    }
                }
                proof {
                    assert(full.take(full.len() as int) =~= full);
                    assert(value_terms(dv.text_values[a as int], sv) == token_terms(
                        field.ord,
                        full,
                    ));
                }
            } else {
                proof {
                    assert(value_terms(dv.text_values[a as int], sv) =~= Seq::<TermModel>::empty());
                }
            }
            a = a + 1;
            proof {
                let t = dv.text_values.take(a as int);
                assert(t.drop_last() =~= dv.text_values.take(a - 1));
                assert(t.last() == dv.text_values[a - 1]);
                assert(keys =~= text_terms(dv.text_values.take(a - 1), sv) + value_terms(
                    dv.text_values[a - 1],
                    sv,
                ));
            }
        }
        proof {
            assert(dv.text_values.take(tn as int) =~= dv.text_values);
        }
        let u32_vals = crate::schema::Document::u32_fields(doc);
        let un = u32_vals.len();
        let mut b: usize = 0;
        proof {
            assert(u32_terms(dv.u32_values.take(0), sv) =~= Seq::<TermModel>::empty());
            assert(keys + u32_terms(dv.u32_values.take(0), sv) =~= keys);
        }
        let ghost tbase = keys;
        while b < un
            invariant
                un == u32_vals@.len(),
                u32_vals@ == dv.u32_values,
                doc_valid(dv, sv),
                b <= un,
                sv == schema@,
                self.max_doc == doc_id,
                self.tokenizer == old(self).tokenizer,
                self.segment_serializer == old(self).segment_serializer,
                self.fast_field_writers == old(self).fast_field_writers,
                postings_wf(self.postings_writer@),
                doc_ids_below(self.postings_writer@, doc_id),
                keys == tbase + u32_terms(dv.u32_values.take(b as int), sv),
                self.postings() == subscribe_seq(m0, doc_id, keys),
            decreases un - b,
        {
            let uv = u32_vals[b];
            proof {
                assert(uv == dv.u32_values[b as int]);
                assert(is_u32_at(sv, dv.u32_values[b as int].field.ord as int));
            }
            let options = schema.u32_field_options(uv.field);
            if options.is_indexed() {
                let term = Term::from_field_u32(uv.field, uv.value);
                proof {
                    assert(term@ == u32_term(uv.field.ord, uv.value));
                    lemma_subscribe_push(m0, doc_id, keys, term@);
                }
                self.postings_writer.subscribe(doc_id, term);
                proof {
                    keys = keys.push(u32_term(uv.field.ord, uv.value));
                }
            }
            b = b + 1;
            proof {
                let t = dv.u32_values.take(b as int);
                assert(t.drop_last() =~= dv.u32_values.take(b - 1));
                assert(t.last() == dv.u32_values[b - 1]);
                assert(keys =~= tbase + u32_terms(dv.u32_values.take(b as int), sv));
            }
        }
        proof {
            assert(dv.u32_values.take(un as int) =~= dv.u32_values);
            assert(keys =~= doc_terms(dv, sv));
        }
        self.fast_field_writers.add_document(doc);
        // Stored fields: the subset marked stored, in schema order.
        let mut stored_fields: Vec<TextFieldValue> = Vec::new();
        let nf = schema.num_fields();
        let mut o: usize = 0;
        proof {
            assert(stored_fields@.map_values(|v: TextFieldValue| v@) =~= stored_upto(dv, sv, 0));
        }
        while o < nf
            invariant
                nf == sv.len(),
                sv == schema@,
                dv == doc@,
                o <= nf,
                stored_fields@.map_values(|v: TextFieldValue| v@) == stored_upto(dv, sv, o as int),
            decreases nf - o,
        {
            let take_it = match schema.entry_at(o) {
                FieldEntry::Text { options, .. } => options.stored,
                FieldEntry::U32 { .. } => false,
            };
            if take_it {
                let text_vals2 = crate::schema::Document::text_fields(doc);
                let vn = text_vals2.len();
                let mut v: usize = 0;
                let ghost sbase = stored_fields@.map_values(|x: TextFieldValue| x@);
                proof {
                    assert(field_values(dv.text_values.take(0), o as usize) =~= Seq::<
                        TextValueModel,
                    >::empty());
                    assert(sbase + field_values(dv.text_values.take(0), o as usize) =~= sbase);
                }
                while v < vn
                    invariant
                        vn == text_vals2@.len(),
                        text_vals2@.map_values(|x: TextFieldValue| x@) == dv.text_values,
                        v <= vn,
                        stored_fields@.map_values(|x: TextFieldValue| x@) == sbase + field_values(
                            dv.text_values.take(v as int),
                            o as usize,
                        ),
                    decreases vn - v,
                {
                    let tv = &text_vals2[v];
                    proof {
                        assert(tv@ == dv.text_values[v as int]);
                    }
                    if tv.field.ord == o {
                        let ghost pre = stored_fields@.map_values(|x: TextFieldValue| x@);
                        let copy = TextFieldValue {
                            field: tv.field,
                            text: String::from_str(tv.text.as_str()),
                        };
                        proof {
                            assert(copy@ == tv@);
                        }
                        stored_fields.push(copy);
                        proof {
                            assert(stored_fields@.map_values(|x: TextFieldValue| x@) =~= pre.push(
                                dv.text_values[v as int],
                            ));
                        }
                    }
                    v = v + 1;
                    proof {
                        let t = dv.text_values.take(v as int);
                        assert(t.drop_last() =~= dv.text_values.take(v - 1));
                        assert(t.last() == dv.text_values[v - 1]);
                        assert(stored_fields@.map_values(|x: TextFieldValue| x@) =~= sbase
                            + field_values(dv.text_values.take(v as int), o as usize));
                    }
                }
                proof {
                    assert(dv.text_values.take(vn as int) =~= dv.text_values);
                }
            }
            o = o + 1;
            proof {
                assert(stored_fields@.map_values(|v2: TextFieldValue| v2@) =~= stored_upto(
                    dv,
                    sv,
                    o as int,
                ));
            }
        }
        self.segment_serializer.store_doc(stored_fields);
        self.max_doc = self.max_doc + 1;
        proof {
            assert(self.postings() == subscribe_seq(m0, doc_id, doc_terms(dv, sv)));
            assert forall|i: int, j: int|
                #![trigger self.postings_writer@[i].1[j]]
                0 <= i < self.postings_writer@.len() && 0 <= j
                    < self.postings_writer@[i].1.len() implies self.postings_writer@[i].1[j]
                < self.max_doc by {}
        }
    }

    /// Seals the segment: drains the postings in term-sorted order, writes
    /// every fast-field column, writes the segment metadata and closes the
    /// serializer.  The sealed streams carry exactly what was accumulated:
    /// term-sorted postings whose lists ascend strictly below `max_doc`, one
    /// column of length `max_doc` per fast field, and one stored record per
    /// document.
    pub fn finalize(self) -> (out: SegmentSerializer)
        requires
            self.inv(),
        ensures
            out@.sealed,
            out@.segment == self.segment_id(),
            out@.info == Some(SegmentInfo { max_doc: self.doc_count() }),
            out@.postings == self.postings_entries(),
            crate::postings::sorted_by_term(out@.postings),
            postings_wf(out@.postings),
            doc_ids_lt(out@.postings, self.doc_count()),
            postings_map(out@.postings) == self.postings(),
            out@.fast_fields.len() == self.fast_fields().columns.len(),
            forall|i: int|
                0 <= i < out@.fast_fields.len() ==> (#[trigger] out@.fast_fields[i]).1.len()
                    == self.doc_count() && out@.fast_fields[i].0 == self.fast_fields().fields[i]
                    && out@.fast_fields[i].1 == self.fast_fields().columns[i],
            out@.stored == self.stored(),
            out@.stored.len() == self.doc_count(),
    {
        let SegmentWriter {
            max_doc,
            tokenizer: _,
            postings_writer,
            mut segment_serializer,
            fast_field_writers,
        } = self;
        postings_writer.serialize(&mut segment_serializer);
        proof {
            assert(segment_serializer@.postings =~= self.postings_writer@);
        }
        fast_field_writers.serialize(&mut segment_serializer);
        let info = SegmentInfo { max_doc };
        segment_serializer.write_segment_info(info);
        segment_serializer.close();
        proof {
            assert(segment_serializer@.postings == self.postings_entries());
            assert forall|i: int|
                0 <= i < segment_serializer@.fast_fields.len() implies (
            #[trigger] segment_serializer@.fast_fields[i]).1.len() == self.doc_count()
                && segment_serializer@.fast_fields[i].0 == self.fast_fields().fields[i] by {
                assert(segment_serializer@.fast_fields[i] == (
                self.fast_field_writers@.fields[i],
                self.fast_field_writers@.columns[i],
                ));
            }
        }
        segment_serializer
    }
}

/// The documents a sealed segment reports: its recorded `max_doc`.
pub open spec fn seg_doc_count(m: SegmentSerializerModel) -> int {
    match m.info {
        Some(i) => i.max_doc as int,
        None => 0,
    }
}

/// Total documents over a run of sealed segments.
pub open spec fn total_docs(segs: Seq<SegmentSerializerModel>) -> int
    decreases segs.len(),
{
    if segs.len() == 0 {
        0
    } else {
        total_docs(segs.drop_last()) + seg_doc_count(segs.last())
    }
}

proof fn lemma_total_docs_bounds(segs: Seq<SegmentSerializerModel>)
    requires
        forall|i: int| 0 <= i < segs.len() ==> 0 < seg_doc_count(#[trigger] segs[i]),
        forall|i: int| 0 <= i < segs.len() ==> seg_doc_count(#[trigger] segs[i]) <= SEGMENT_ROLL,
    ensures
        segs.len() <= total_docs(segs) <= segs.len() * (SEGMENT_ROLL as int),
    decreases segs.len(),
{
    if segs.len() > 0 {
        assert forall|i: int| 0 <= i < segs.drop_last().len() implies 0 < seg_doc_count(
            #[trigger] segs.drop_last()[i],
        ) && seg_doc_count(segs.drop_last()[i]) <= SEGMENT_ROLL by {
            assert(segs.drop_last()[i] == segs[i]);
        }
        lemma_total_docs_bounds(segs.drop_last());
        assert((segs.len() - 1) * (SEGMENT_ROLL as int) + SEGMENT_ROLL == segs.len() * (
        SEGMENT_ROLL as int)) by (nonlinear_arith);
    }
}

/// The postings a run of documents accumulates, indexed from zero in run
/// order: what one segment holds of the documents given to it.
pub open spec fn batch_postings(
    docs: Seq<DocumentModel>,
    s: Seq<FieldEntryModel>,
) -> Map<TermModel, Seq<DocId>>
    decreases docs.len(),
{
    if docs.len() == 0 {
        Map::empty()
    } else {
        subscribe_seq(
            batch_postings(docs.drop_last(), s),
            (docs.len() - 1) as DocId,
            doc_terms(docs.last(), s),
        )
    }
}

/// The documents of the `k`-th segment of a batch: the `k`-th run of
/// `SEGMENT_ROLL`.
pub open spec fn chunk_docs(docs: Seq<DocumentModel>, k: int) -> Seq<DocumentModel> {
    let lo = k * (SEGMENT_ROLL as int);
    let hi = if lo + (SEGMENT_ROLL as int) <= docs.len() {
        lo + (SEGMENT_ROLL as int)
    } else {
        docs.len() as int
    };
    docs.subrange(lo, hi)
}

/// Sealed segments account for documents additively: what several workers
/// produce together holds exactly the documents of all their batches, so
/// for any number of workers the `max_doc` values of all produced segments
/// sum to the number of submitted documents.
pub proof fn lemma_total_docs_concat(a: Seq<SegmentSerializerModel>, b: Seq<SegmentSerializerModel>)
    ensures
        total_docs(a + b) == total_docs(a) + total_docs(b),
    decreases b.len(),
{
    if b.len() == 0 {
        assert(a + b =~= a);
    } else {
        assert((a + b).drop_last() =~= a + b.drop_last());
        assert((a + b).last() == b.last());
        lemma_total_docs_concat(a, b.drop_last());
    }
}

/// The document loop of one pipeline worker, run over a batch: documents
/// are indexed in order into segments of at most `SEGMENT_ROLL` documents
/// each, every segment is sealed, and the sealed segments together hold
/// exactly the batch: their `max_doc` values sum to the batch size.
pub fn index_batch(schema: &Schema, docs: &Vec<Document>, first_segment_id: u32) -> (segs: Vec<
    SegmentSerializer,
>)
    requires
        forall|i: int| 0 <= i < docs@.len() ==> doc_valid((#[trigger] docs@[i])@, schema@),
        first_segment_id + docs@.len() <= u32::MAX,
    ensures
        total_docs(segs@.map_values(|s: SegmentSerializer| s@)) == docs@.len(),
        forall|k: int|
            0 <= k < segs@.len() ==> (#[trigger] segs@[k])@.sealed && segs@[k]@.info is Some
                && 0 < seg_doc_count(segs@[k]@) <= SEGMENT_ROLL && segs@[k]@.segment.id
                == first_segment_id + k,
        forall|k: int|
            0 <= k < segs@.len() ==> postings_map((#[trigger] segs@[k])@.postings)
                == batch_postings(
                chunk_docs(docs@.map_values(|d: Document| d@), k),
                schema@,
            ),
        segs@.len() <= docs@.len(),
        docs@.len() <= segs@.len() * (SEGMENT_ROLL as int),
{
    let n = docs.len();
    let ghost dview = docs@.map_values(|d: Document| d@);
    let mut segs: Vec<SegmentSerializer> = Vec::new();
    let mut i: usize = 0;
    proof {
        assert(segs@.map_values(|s: SegmentSerializer| s@) =~= Seq::<
            SegmentSerializerModel,
        >::empty());
    }
    while i < n
        invariant
            n == docs@.len(),
            i <= n,
            dview == docs@.map_values(|d: Document| d@),
            forall|p: int| 0 <= p < docs@.len() ==> doc_valid((#[trigger] docs@[p])@, schema@),
            first_segment_id + docs@.len() <= u32::MAX,
            segs@.len() <= i,
            i < n ==> i == segs@.len() * (SEGMENT_ROLL as int),
            total_docs(segs@.map_values(|s: SegmentSerializer| s@)) == i,
            forall|k: int|
                0 <= k < segs@.len() ==> (#[trigger] segs@[k])@.sealed && segs@[k]@.info is Some
                    && 0 < seg_doc_count(segs@[k]@) <= SEGMENT_ROLL && segs@[k]@.segment.id
                    == first_segment_id + k,
            forall|k: int|
                0 <= k < segs@.len() ==> postings_map((#[trigger] segs@[k])@.postings)
                    == batch_postings(chunk_docs(dview, k), schema@),
        decreases n - i,
    {
        let seg_ord = segs.len();
        let segment = Segment { id: first_segment_id + seg_ord as u32 };
        let mut writer = SegmentWriter::for_segment(segment, schema);
        let ghost i0 = i as int;
        let mut cnt: u32 = 0;
        proof {
            assert(dview.subrange(i0, i0) =~= Seq::<DocumentModel>::empty());
        }
        while cnt < SEGMENT_ROLL && i < n
            invariant
                n == docs@.len(),
                i <= n,
                dview == docs@.map_values(|d: Document| d@),
                forall|p: int| 0 <= p < docs@.len() ==> doc_valid((#[trigger] docs@[p])@, schema@),
                cnt == i - i0,
                0 <= i0 <= i,
                cnt <= SEGMENT_ROLL,
                writer.inv(),
                writer.matches_schema(schema@),
                writer.doc_count() == cnt,
                writer.segment_id() == segment,
                writer.postings() == batch_postings(dview.subrange(i0, i as int), schema@),
            decreases n - i,
        {
            writer.add_document(&docs[i], schema);
            i = i + 1;
            cnt = cnt + 1;
            proof {
                let run = dview.subrange(i0, i as int);
                assert(run.drop_last() =~= dview.subrange(i0, i - 1));
                assert(run.last() == dview[i - 1]);
                assert(dview[i - 1] == docs@[i - 1]@);
                assert(run.len() - 1 == cnt - 1);
            }
        }
        let sealed = writer.finalize();
        let ghost prevv = segs@;
        let ghost prev = segs@.map_values(|s: SegmentSerializer| s@);
        segs.push(sealed);
        proof {
            let cur = segs@.map_values(|s: SegmentSerializer| s@);
            assert(cur =~= prev.push(sealed@));
            assert(cur.drop_last() =~= prev);
            assert(seg_doc_count(sealed@) == cnt);
            assert(total_docs(cur) == total_docs(prev) + cnt);
            assert(chunk_docs(dview, seg_ord as int) =~= dview.subrange(i0, i as int));
            assert forall|k: int|
                0 <= k < segs@.len() implies (#[trigger] segs@[k])@.sealed && segs@[k]@.info is Some
                    && 0 < seg_doc_count(segs@[k]@) <= SEGMENT_ROLL && segs@[k]@.segment.id
                    == first_segment_id + k && postings_map(segs@[k]@.postings) == batch_postings(
                    chunk_docs(dview, k),
                    schema@,
                ) by {
                if k < segs@.len() - 1 {
                    assert(segs@[k] == prevv[k]);
                } else {
                    assert(segs@[k] == sealed);
                }
            }
        }
    }
    proof {
        let ms = segs@.map_values(|s: SegmentSerializer| s@);
        assert forall|k: int| 0 <= k < ms.len() implies 0 < seg_doc_count(#[trigger] ms[k])
            && seg_doc_count(ms[k]) <= SEGMENT_ROLL by {
            assert(ms[k] == segs@[k]@);
        }
        lemma_total_docs_bounds(ms);
    }
    segs
}

} // verus!
