use indexcore::analyzer::SimpleTokenizer;
use indexcore::schema::{Document, Schema, TextOptions, U32Options};
use indexcore::serializer::Segment;
use indexcore::term::{term_cmp_lt, Term};
use indexcore::writer::{index_batch, SegmentWriter, SEGMENT_ROLL};

fn indexed_text() -> TextOptions {
    TextOptions::new(true, true, false)
}

fn stored_text() -> TextOptions {
    TextOptions::new(true, true, true)
}

#[test]
fn test_tokenizer_splits_on_non_alphanumeric() {
    let tokenizer = SimpleTokenizer::new();
    let mut stream = tokenizer.tokenize("Hello, world! 42 c3po...");
    assert_eq!(stream.next().as_deref(), Some("Hello"));
    assert_eq!(stream.next().as_deref(), Some("world"));
    assert_eq!(stream.next().as_deref(), Some("42"));
    assert_eq!(stream.next().as_deref(), Some("c3po"));
    assert_eq!(stream.next(), None);
    let mut empty = tokenizer.tokenize("...!?");
    assert_eq!(empty.next(), None);
}

#[test]
fn test_schema_registration() {
    let mut schema = Schema::new();
    let body = schema.add_text_field("body", indexed_text()).unwrap();
    assert!(schema.add_text_field("body", indexed_text()).is_none());
    let count = schema.add_u32_field("count", U32Options::new(true, true)).unwrap();
    assert_eq!(schema.get_field("body"), Some(body));
    assert_eq!(schema.get_field("count"), Some(count));
    assert_eq!(schema.get_field("missing"), None);
    assert_eq!(schema.num_fields(), 2);
}

#[test]
fn test_u32_term_encoding_is_big_endian() {
    let mut schema = Schema::new();
    let count = schema.add_u32_field("count", U32Options::new(true, false)).unwrap();
    let term = Term::from_field_u32(count, 260);
    assert_eq!(term.payload().as_slice(), &[0u8, 0, 1, 4]);
    let term2 = Term::from_field_u32(count, 0xdead_beef);
    assert_eq!(term2.payload().as_slice(), &[0xde, 0xad, 0xbe, 0xef]);
}

#[test]
fn test_segment_writer_postings_ascending_and_sorted() {
    let mut schema = Schema::new();
    let body = schema.add_text_field("body", indexed_text()).unwrap();
    let count = schema.add_u32_field("count", U32Options::new(true, true)).unwrap();
    let mut writer = SegmentWriter::for_segment(Segment { id: 7 }, &schema);
    for (i, text) in ["apple banana apple", "banana cherry", "apple cherry banana"]
        .iter()
        .enumerate()
    {
        let mut doc = Document::new();
        doc.add_text(body, text);
        doc.add_u32(count, i as u32);
        writer.add_document(&doc, &schema);
    }
    assert_eq!(writer.segment(), Segment { id: 7 });
    assert_eq!(writer.max_doc(), 3);
    let sealed = writer.finalize();
    assert_eq!(sealed.segment_info().unwrap().max_doc, 3);
    // Posting lists are strictly ascending in document ordinal, below max_doc.
    let n = sealed.num_terms();
    assert!(n > 0);
    for i in 0..n {
        let docs = sealed.doc_ids_at(i);
        assert!(!docs.is_empty());
        for w in docs.windows(2) {
            assert!(w[0] < w[1]);
        }
        for d in docs.iter() {
            assert!(*d < 3);
        }
    }
    // Serialized term order is lexicographic by (field ordinal, payload).
    for i in 1..n {
        assert!(term_cmp_lt(sealed.term_at(i - 1), sealed.term_at(i)));
    }
    // The expected posting lists for the text terms.
    let apple = Term::from_field_text(body, "apple");
    let banana = Term::from_field_text(body, "banana");
    let cherry = Term::from_field_text(body, "cherry");
    let mut found = 0;
    for i in 0..n {
        let t = sealed.term_at(i);
        if *t == apple {
            assert_eq!(sealed.doc_ids_at(i).as_slice(), &[0u32, 2]);
            found += 1;
        } else if *t == banana {
            assert_eq!(sealed.doc_ids_at(i).as_slice(), &[0u32, 1, 2]);
            found += 1;
        } else if *t == cherry {
            assert_eq!(sealed.doc_ids_at(i).as_slice(), &[1u32, 2]);
            found += 1;
        }
    }
    assert_eq!(found, 3);
}

#[test]
fn test_fast_field_columns_have_one_cell_per_document() {
    let mut schema = Schema::new();
    let body = schema.add_text_field("body", indexed_text()).unwrap();
    let rating = schema.add_u32_field("rating", U32Options::new(false, true)).unwrap();
    let other = schema.add_u32_field("other", U32Options::new(true, false)).unwrap();
    let mut writer = SegmentWriter::for_segment(Segment { id: 0 }, &schema);
    for i in 0..5u32 {
        let mut doc = Document::new();
        doc.add_text(body, "x");
        if i % 2 == 0 {
            doc.add_u32(rating, 10 + i);
        }
        doc.add_u32(other, 99);
        writer.add_document(&doc, &schema);
    }
    let sealed = writer.finalize();
    // One column, for the one field marked fast; its length is max_doc,
    // with the declared default of zero where a document had no value.
    assert_eq!(sealed.num_fast_fields(), 1);
    let (field, column) = sealed.fast_field_at(0);
    assert_eq!(*field, rating);
    assert_eq!(column.as_slice(), &[10u32, 0, 12, 0, 14]);
    assert_eq!(column.len(), sealed.segment_info().unwrap().max_doc as usize);
}

#[test]
fn test_stored_fields_in_schema_order() {
    let mut schema = Schema::new();
    let title = schema.add_text_field("title", stored_text()).unwrap();
    let body = schema.add_text_field("body", indexed_text()).unwrap();
    let author = schema.add_text_field("author", stored_text()).unwrap();
    let mut writer = SegmentWriter::for_segment(Segment { id: 0 }, &schema);
    let mut doc = Document::new();
    doc.add_text(author, "ann");
    doc.add_text(title, "greeting");
    doc.add_text(body, "hello there");
    writer.add_document(&doc, &schema);
    let sealed = writer.finalize();
    assert_eq!(sealed.num_stored_docs(), 1);
    let fields = sealed.stored_doc_at(0);
    // Stored subset only, iterated in schema order.
    assert_eq!(fields.len(), 2);
    assert_eq!(fields[0].field, title);
    assert_eq!(fields[0].text, "greeting");
    assert_eq!(fields[1].field, author);
    assert_eq!(fields[1].text, "ann");
}

#[test]
fn test_batch_rolls_segments_and_accounts_every_document() {
    let mut schema = Schema::new();
    let body = schema.add_text_field("body", indexed_text()).unwrap();
    // Two workers' worth of documents, 500 each: the roll policy yields
    // between 2 and 4 segments in total, summing to 1000 documents.
    let mut docs_a = Vec::new();
    let mut docs_b = Vec::new();
    for i in 0..1000u32 {
        let mut doc = Document::new();
        doc.add_text(body, "common payload");
        if i < 500 {
            docs_a.push(doc);
        } else {
            docs_b.push(doc);
        }
    }
    let segs_a = index_batch(&schema, &docs_a, 0);
    let segs_b = index_batch(&schema, &docs_b, segs_a.len() as u32);
    let total: u64 = segs_a
        .iter()
        .chain(segs_b.iter())
        .map(|s| s.segment_info().unwrap().max_doc as u64)
        .sum();
    assert_eq!(total, 1000);
    let count = segs_a.len() + segs_b.len();
    assert!((2..=4).contains(&count));
    for seg in segs_a.iter().chain(segs_b.iter()) {
        assert!(seg.segment_info().unwrap().max_doc <= SEGMENT_ROLL);
        // Every token of the inputs is retrievable through its posting list.
        let common = Term::from_field_text(body, "common");
        let payload = Term::from_field_text(body, "payload");
        let max_doc = seg.segment_info().unwrap().max_doc;
        for want in [&common, &payload] {
            let mut seen = false;
            for i in 0..seg.num_terms() {
                if seg.term_at(i) == want {
                    let ids = seg.doc_ids_at(i);
                    assert_eq!(ids.len(), max_doc as usize);
                    seen = true;
                }
            }
            assert!(seen);
        }
    }
}

#[test]
fn test_empty_batch_produces_no_segments() {
    let mut schema = Schema::new();
    schema.add_text_field("body", indexed_text()).unwrap();
    let docs: Vec<Document> = Vec::new();
    let segs = index_batch(&schema, &docs, 0);
    assert!(segs.is_empty());
}

#[test]
fn test_empty_segment_is_still_valid() {
    let mut schema = Schema::new();
    schema.add_text_field("body", indexed_text()).unwrap();
    let writer = SegmentWriter::for_segment(Segment { id: 3 }, &schema);
    let sealed = writer.finalize();
    assert_eq!(sealed.segment_info().unwrap().max_doc, 0);
    assert_eq!(sealed.num_terms(), 0);
    assert_eq!(sealed.num_stored_docs(), 0);
}
