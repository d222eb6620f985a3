//! The fast-field accumulator: for each u32 field marked `fast`, a dense
//! column holding one cell per indexed document, in document order.

use vstd::prelude::*;

use crate::schema::{
    Document, Field, FieldEntry, FieldEntryModel, Schema, U32FieldValue,
    u32_options_at,
};
use crate::serializer::{SegmentSerializer, SegmentSerializerModel};

verus! {

/// Ordinals of the fast u32 fields of a schema, in schema order.
pub open spec fn fast_field_ords(s: Seq<FieldEntryModel>) -> Seq<usize>
    decreases s.len(),
{
    if s.len() == 0 {
        Seq::empty()
    } else if s.last() is U32 && u32_options_at(s, s.len() - 1).fast {
        fast_field_ords(s.drop_last()).push((s.len() - 1) as usize)
    } else {
        fast_field_ords(s.drop_last())
    }
}

/// The first u32 value a document carries for `field_ord`, or the declared
/// default of zero when it carries none.
pub open spec fn first_u32_value(vals: Seq<U32FieldValue>, field_ord: usize) -> u32
    decreases vals.len(),
{
    if vals.len() == 0 {
        0
    } else if vals[0].field.ord == field_ord {
        vals[0].value
    } else {
        first_u32_value(vals.drop_first(), field_ord)
    }
}

/// Mathematical model of a `U32FastFieldsWriter`: the covered field
/// ordinals and their columns, position by position.
pub struct FastFieldsModel {
    pub fields: Seq<usize>,
    pub columns: Seq<Seq<u32>>,
}

/// Columnar accumulator for the fast u32 fields.
pub struct U32FastFieldsWriter {
    fields: Vec<Field>,
    columns: Vec<Vec<u32>>,
}

impl View for U32FastFieldsWriter {
    type V = FastFieldsModel;

    closed spec fn view(&self) -> FastFieldsModel {
        FastFieldsModel {
            fields: self.fields@.map_values(|f: Field| f.ord),
            columns: self.columns@.map_values(|c: Vec<u32>| c@),
        }
    }
}

impl U32FastFieldsWriter {
    /// One column per field, every column of the same length.
    pub open spec fn wf(self) -> bool {
        &&& self@.fields.len() == self@.columns.len()
        &&& forall|i: int, j: int|
            0 <= i < self@.columns.len() && 0 <= j < self@.columns.len()
                ==> (#[trigger] self@.columns[i]).len() == (#[trigger] self@.columns[j]).len()
    }

    /// Allocates one empty column per fast u32 field of the schema.
    pub fn from_schema(schema: &Schema) -> (w: U32FastFieldsWriter)
        ensures
            w.wf(),
            w@.fields == fast_field_ords(schema@),
            forall|i: int| 0 <= i < w@.columns.len() ==> (#[trigger] w@.columns[i]).len() == 0,
    {
        let n = schema.num_fields();
        let mut fields: Vec<Field> = Vec::new();
        let mut columns: Vec<Vec<u32>> = Vec::new();
        let mut i: usize = 0;
        proof {
            assert(fields@.map_values(|f: Field| f.ord) =~= fast_field_ords(schema@.take(0)));
        }
        while i < n
            invariant
                n == schema@.len(),
                i <= n,
                fields@.len() == columns@.len(),
                fields@.map_values(|f: Field| f.ord) == fast_field_ords(schema@.take(i as int)),
                forall|j: int| 0 <= j < columns@.len() ==> (#[trigger] columns@[j])@.len() == 0,
            decreases n - i,
        {
            let ghost pre = fields@.map_values(|f: Field| f.ord);
            let take_it = match schema.entry_at(i) {
                FieldEntry::U32 { options, .. } => options.fast,
                FieldEntry::Text { .. } => false,
            };
            if take_it {
                fields.push(Field { ord: i });
                let col: Vec<u32> = Vec::new();
                columns.push(col);
                proof {
                    assert(fields@.map_values(|f: Field| f.ord) =~= pre.push(i as usize));
                }
            }
            i = i + 1;
            proof {
                let t = schema@.take(i as int);
                assert(t.drop_last() =~= schema@.take(i - 1));
                assert(t.last() == schema@[i - 1]);
                assert(u32_options_at(t, t.len() - 1) == u32_options_at(schema@, i - 1));
            }
        }
        proof {
            assert(schema@.take(n as int) =~= schema@);
        }
        let w = U32FastFieldsWriter { fields, columns };
        w
    }

    /// Appends, for every fast field, the document's value for it (or zero),
    /// so that every column grows by exactly one cell.
    pub fn add_document(&mut self, doc: &Document)
        requires
            old(self).wf(),
        ensures
            final(self).wf(),
            final(self)@.fields == old(self)@.fields,
            final(self)@.columns.len() == old(self)@.columns.len(),
            forall|i: int|
                0 <= i < old(self)@.columns.len() ==> (#[trigger] final(self)@.columns[i])
                    == old(self)@.columns[i].push(
                    first_u32_value(doc@.u32_values, old(self)@.fields[i]),
                ),
    {
        let n = self.fields.len();
        let mut c: usize = 0;
        while c < n
            invariant
                old(self).wf(),
                n == self.fields@.len(),
                n == self.columns@.len(),
                c <= n,
                self.fields == old(self).fields,
                self@.fields == old(self)@.fields,
                self@.columns.len() == old(self)@.columns.len(),
                forall|i: int|
                    0 <= i < c ==> (#[trigger] self@.columns[i]) == old(self)@.columns[i].push(
                        first_u32_value(doc@.u32_values, old(self)@.fields[i]),
                    ),
                forall|i: int|
                    c <= i < n ==> (#[trigger] self@.columns[i]) == old(self)@.columns[i],
            decreases n - c,
        {
            let field = self.fields[c];
            proof {
                assert(old(self)@.fields[c as int] == field.ord);
            }
            let value = doc_u32_value(doc, field);
            let ghost cols0 = self.columns@;
            self.columns[c].push(value);
            proof {
                assert(self.columns@[c as int]@ == cols0[c as int]@.push(value));
                assert(self.columns@ == cols0.update(c as int, self.columns@[c as int]));
                assert forall|i: int| 0 <= i < n && i != c implies #[trigger] self@.columns[i]
                    == cols0.map_values(|v: Vec<u32>| v@)[i] by {
                    assert(self.columns@[i] == cols0[i]);
                }
                assert(self@.columns[c as int] == cols0[c as int]@.push(value));
                assert forall|i: int|
                    0 <= i <= c implies #[trigger] self@.columns[i] == old(self)@.columns[i].push(
                    first_u32_value(doc@.u32_values, old(self)@.fields[i]),
                ) by {
                    assert(cols0.map_values(|v: Vec<u32>| v@)[i] == cols0[i]@);
                    if i < c {
                        assert(self@.columns[i] == cols0[i]@);
                    } else {
                        assert(cols0[i]@ == old(self)@.columns[i]);
                    }
                }
            }
            c = c + 1;
        }
    }

    /// Writes every column, with its field, to the fast-field stream of
    /// `serializer`, in schema order.
    pub fn serialize(&self, serializer: &mut SegmentSerializer)
        requires
            self.wf(),
            !old(serializer)@.sealed,
        ensures
            final(serializer)@ == (SegmentSerializerModel {
                fast_fields: old(serializer)@.fast_fields + Seq::new(
                    self@.columns.len(),
                    |i: int| (self@.fields[i], self@.columns[i]),
                ),
                ..old(serializer)@
            }),
    {
        let ghost full = Seq::new(
            self@.columns.len(),
            |i: int| (self@.fields[i], self@.columns[i]),
        );
        let n = self.fields.len();
        let mut c: usize = 0;
        while c < n
            invariant
                self.wf(),
                n == self.fields@.len(),
                n == self.columns@.len(),
                c <= n,
                !serializer@.sealed,
                full == Seq::new(
                    self@.columns.len(),
                    |i: int| (self@.fields[i], self@.columns[i]),
                ),
                serializer@ == (SegmentSerializerModel {
                    fast_fields: old(serializer)@.fast_fields + full.take(c as int),
                    ..old(serializer)@
                }),
            decreases n - c,
        {
            let field = self.fields[c];
            let column = crate::term::copy_vec(&self.columns[c]);
            serializer.write_fast_field(field, column);
            c = c + 1;
            proof {
                assert((old(serializer)@.fast_fields + full.take(c - 1)).push(full[c - 1])
                    =~= old(serializer)@.fast_fields + full.take(c as int));
            }
        }
        proof {
            assert(full.take(n as int) =~= full);
        }
    }

    /// Number of fast-field columns.
    pub fn num_columns(&self) -> (r: usize)
        ensures
            r == self@.columns.len(),
    {
        self.columns.len()
    }
}

/// The document's value for `field`, or zero when it carries none: the
/// first matching u32 value wins.
fn doc_u32_value(doc: &Document, field: Field) -> (r: u32)
    ensures
        r == first_u32_value(doc@.u32_values, field.ord),
{
    let vals = doc.u32_fields();
    let n = vals.len();
    let mut j: usize = 0;
    proof {
        assert(doc@.u32_values.skip(0) =~= doc@.u32_values);
    }
    while j < n
        invariant
            n == vals@.len(),
            vals@ == doc@.u32_values,
            j <= n,
            first_u32_value(doc@.u32_values, field.ord) == first_u32_value(
                doc@.u32_values.skip(j as int),
                field.ord,
            ),
            forall|p: int| 0 <= p < j ==> (#[trigger] doc@.u32_values[p]).field.ord != field.ord,
        decreases n - j,
    {
        let v = vals[j];
        proof {
            assert(doc@.u32_values.skip(j as int)[0] == doc@.u32_values[j as int]);
        }
        if v.field.ord == field.ord {
            return v.value;
        }
        proof {
            assert(doc@.u32_values.skip(j as int).drop_first() =~= doc@.u32_values.skip(j + 1));
        }
        j = j + 1;
    }
    proof {
        assert(doc@.u32_values.skip(j as int) =~= Seq::<U32FieldValue>::empty());
    }
    0
}

} // verus!
