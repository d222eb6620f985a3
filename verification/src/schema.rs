//! Schema: the ordered registry of named fields and their kinds, and the
//! document model that is indexed against it.
//!
//! A schema is built incrementally before indexing and never mutated once
//! documents are indexed against it.  A `Field` is a stable small-integer
//! handle into the registry.

use vstd::prelude::*;

use crate::chars::str_eq;

verus! {

/// Per-segment document ordinal: dense, assigned from zero.
pub type DocId = u32;

/// Stable handle to a schema slot: the ordinal of the field in registration
/// order.
#[derive(Clone, Copy, PartialEq, Eq, Structural, Debug)]
pub struct Field {
    pub ord: usize,
}

/// Options of a text field: three independent booleans.
#[derive(Clone, Copy, PartialEq, Eq, Structural, Debug)]
pub struct TextOptions {
    pub indexed: bool,
    pub tokenized: bool,
    pub stored: bool,
}

impl TextOptions {
    pub fn new(indexed: bool, tokenized: bool, stored: bool) -> (o: TextOptions)
        ensures
            o == (TextOptions { indexed, tokenized, stored }),
    {
        TextOptions { indexed, tokenized, stored }
    }

    /// Tokenization feeds the postings writer only when the field is both
    /// indexed and tokenized.
    pub fn is_tokenized_indexed(&self) -> (r: bool)
        ensures
            r == (self.indexed && self.tokenized),
    {
        self.indexed && self.tokenized
    }

    pub fn is_stored(&self) -> (r: bool)
        ensures
            r == self.stored,
    {
        self.stored
    }
}

/// Options of a u32 field.
#[derive(Clone, Copy, PartialEq, Eq, Structural, Debug)]
pub struct U32Options {
    pub indexed: bool,
    pub fast: bool,
}

impl U32Options {
    pub fn new(indexed: bool, fast: bool) -> (o: U32Options)
        ensures
            o == (U32Options { indexed, fast }),
    {
        U32Options { indexed, fast }
    }

    pub fn is_indexed(&self) -> (r: bool)
        ensures
            r == self.indexed,
    {
        self.indexed
    }

    pub fn is_fast(&self) -> (r: bool)
        ensures
            r == self.fast,
    {
        self.fast
    }
}

/// One slot of the registry: a name and a kind.
#[derive(Clone, Debug)]
pub enum FieldEntry {
    Text { name: String, options: TextOptions },
    U32 { name: String, options: U32Options },
}

/// Mathematical model of a `FieldEntry`: the name as a character sequence.
pub enum FieldEntryModel {
    Text { name: Seq<char>, options: TextOptions },
    U32 { name: Seq<char>, options: U32Options },
}

impl View for FieldEntry {
    type V = FieldEntryModel;

    open spec fn view(&self) -> FieldEntryModel {
        match self {
            FieldEntry::Text { name, options } => FieldEntryModel::Text {
                name: name@,
                options: *options,
            },
            FieldEntry::U32 { name, options } => FieldEntryModel::U32 {
                name: name@,
                options: *options,
            },
        }
    }
}

pub open spec fn entry_name(e: FieldEntryModel) -> Seq<char> {
    match e {
        FieldEntryModel::Text { name, .. } => name,
        FieldEntryModel::U32 { name, .. } => name,
    }
}

/// Ordinal of the first entry named `name`, if any.
pub open spec fn field_lookup(s: Seq<FieldEntryModel>, name: Seq<char>) -> Option<int>
    decreases s.len(),
{
    if s.len() == 0 {
        None
    } else if entry_name(s[0]) == name {
        Some(0int)
    } else {
        match field_lookup(s.drop_first(), name) {
            None => None,
            Some(i) => Some(i + 1),
        }
    }
}

/// `field_lookup` finds exactly the first index whose entry bears `name`.
pub proof fn lemma_field_lookup(s: Seq<FieldEntryModel>, name: Seq<char>)
    ensures
        match field_lookup(s, name) {
            Some(i) => 0 <= i < s.len() && entry_name(s[i]) == name && forall|j: int|
                0 <= j < i ==> entry_name(s[j]) != name,
            None => forall|j: int| 0 <= j < s.len() ==> entry_name(s[j]) != name,
        },
    decreases s.len(),
{
    if s.len() > 0 && entry_name(s[0]) != name {
        lemma_field_lookup(s.drop_first(), name);
        assert forall|j: int| 1 <= j < s.len() implies entry_name(s[j]) == entry_name(
            s.drop_first()[j - 1],
        ) by {
            assert(s.drop_first()[j - 1] == s[j]);
        }
        match field_lookup(s.drop_first(), name) {
            None => {},
            Some(i) => {
                assert(s[i + 1] == s.drop_first()[i]);
            },
        }
    }
}

/// Ordered registry of fields.
#[derive(Clone, Debug)]
pub struct Schema {
    entries: Vec<FieldEntry>,
}


impl View for Schema {
    type V = Seq<FieldEntryModel>;

    closed spec fn view(&self) -> Seq<FieldEntryModel> {
        self.entries@.map_values(|e: FieldEntry| e@)
    }
}

/// The options of the text field at ordinal `ord`, for a schema where that
/// slot is known to be a text field.
pub open spec fn text_options_at(s: Seq<FieldEntryModel>, ord: int) -> TextOptions {
    match s[ord] {
        FieldEntryModel::Text { options, .. } => options,
        FieldEntryModel::U32 { .. } => TextOptions { indexed: false, tokenized: false, stored: false },
    }
}

/// The options of the u32 field at ordinal `ord`, for a schema where that
/// slot is known to be a u32 field.
pub open spec fn u32_options_at(s: Seq<FieldEntryModel>, ord: int) -> U32Options {
    match s[ord] {
        FieldEntryModel::U32 { options, .. } => options,
        FieldEntryModel::Text { .. } => U32Options { indexed: false, fast: false },
    }
}

pub open spec fn is_text_at(s: Seq<FieldEntryModel>, ord: int) -> bool {
    0 <= ord < s.len() && s[ord] is Text
}

pub open spec fn is_u32_at(s: Seq<FieldEntryModel>, ord: int) -> bool {
    0 <= ord < s.len() && s[ord] is U32
}

impl Schema {
    pub fn new() -> (s: Schema)
        ensures
            s@ == Seq::<FieldEntryModel>::empty(),
    {
        let s = Schema { entries: Vec::new() };
        proof {
            assert(s@ =~= Seq::<FieldEntryModel>::empty());
        }
        s
    }

    pub fn num_fields(&self) -> (n: usize)
        ensures
            n == self@.len(),
    {
        self.entries.len()
    }

    /// The registry slot at ordinal `i`.
    pub fn entry_at(&self, i: usize) -> (e: &FieldEntry)
        requires
            i < self@.len(),
        ensures
            e@ == self@[i as int],
    {
        &self.entries[i]
    }

    /// Looks a field up by name; the first registered field of that name
    /// wins (registration keeps names unique, so at most one exists).
    pub fn get_field(&self, name: &str) -> (r: Option<Field>)
        ensures
            match r {
                Some(f) => field_lookup(self@, name@) == Some(f.ord as int),
                None => field_lookup(self@, name@) is None,
            },
    {
        proof {
            lemma_field_lookup(self@, name@);
        }
        let n = self.entries.len();
        let mut i: usize = 0;
        while i < n
            invariant
                n == self.entries@.len(),
                i <= n,
                self@.len() == n,
                forall|j: int| 0 <= j < i ==> entry_name(self@[j]) != name@,
                match field_lookup(self@, name@) {
                    Some(k) => 0 <= k < self@.len() && entry_name(self@[k]) == name@
                        && forall|j: int| 0 <= j < k ==> entry_name(self@[j]) != name@,
                    None => forall|j: int| 0 <= j < self@.len() ==> entry_name(self@[j]) != name@,
                },
            decreases n - i,
        {
            let hit = match &self.entries[i] {
                FieldEntry::Text { name: entry, .. } => str_eq(entry.as_str(), name),
                FieldEntry::U32 { name: entry, .. } => str_eq(entry.as_str(), name),
            };
            proof {
                assert(self@[i as int] == self.entries@[i as int]@);
                assert(hit == (entry_name(self@[i as int]) == name@));
            }
            if hit {
                return Some(Field { ord: i });
            }
            i = i + 1;
        }
        None
    }

    /// Registers a new text field; refuses a name that is already taken,
    /// leaving the schema unchanged.
    pub fn add_text_field(&mut self, name: &str, options: TextOptions) -> (r: Option<Field>)
        ensures
            match r {
                Some(f) => field_lookup(old(self)@, name@) is None && f.ord == old(self)@.len()
                    && final(self)@ == old(self)@.push(FieldEntryModel::Text { name: name@, options }),
                None => field_lookup(old(self)@, name@) is Some && final(self)@ == old(self)@,
            },
    {
        if self.get_field(name).is_some() {
            return None;
        }
        let ord = self.entries.len();
        self.entries.push(FieldEntry::Text { name: String::from_str(name), options });
        proof {
            assert(self@ =~= old(self)@.push(FieldEntryModel::Text { name: name@, options }));
        }
        Some(Field { ord })
    }

    /// Registers a new u32 field; refuses a name that is already taken,
    /// leaving the schema unchanged.
    pub fn add_u32_field(&mut self, name: &str, options: U32Options) -> (r: Option<Field>)
        ensures
            match r {
                Some(f) => field_lookup(old(self)@, name@) is None && f.ord == old(self)@.len()
                    && final(self)@ == old(self)@.push(FieldEntryModel::U32 { name: name@, options }),
                None => field_lookup(old(self)@, name@) is Some && final(self)@ == old(self)@,
            },
    {
        if self.get_field(name).is_some() {
            return None;
        }
        let ord = self.entries.len();
        self.entries.push(FieldEntry::U32 { name: String::from_str(name), options });
        proof {
            assert(self@ =~= old(self)@.push(FieldEntryModel::U32 { name: name@, options }));
        }
        Some(Field { ord })
    }

    /// Options of a text field.  Asking for a slot of the wrong kind is a
    /// programmer error, ruled out by the precondition.
    pub fn text_field_options(&self, field: Field) -> (o: TextOptions)
        requires
            is_text_at(self@, field.ord as int),
        ensures
            o == text_options_at(self@, field.ord as int),
    {
        match &self.entries[field.ord as usize] {
            FieldEntry::Text { options, .. } => *options,
            FieldEntry::U32 { .. } => vstd::pervasive::unreached(),
        }
    }

    /// Options of a u32 field.  Asking for a slot of the wrong kind is a
    /// programmer error, ruled out by the precondition.
    pub fn u32_field_options(&self, field: Field) -> (o: U32Options)
        requires
            is_u32_at(self@, field.ord as int),
        ensures
            o == u32_options_at(self@, field.ord as int),
    {
        match &self.entries[field.ord as usize] {
            FieldEntry::U32 { options, .. } => *options,
            FieldEntry::Text { .. } => vstd::pervasive::unreached(),
        }
    }
}

/// One text value of a document.
#[derive(Clone, PartialEq, Eq, Debug)]
pub struct TextFieldValue {
    pub field: Field,
    pub text: String,
}

/// Mathematical model of a `TextFieldValue`.
pub struct TextValueModel {
    pub field: usize,
    pub text: Seq<char>,
}

impl View for TextFieldValue {
    type V = TextValueModel;

    open spec fn view(&self) -> TextValueModel {
        TextValueModel { field: self.field.ord, text: self.text@ }
    }
}

/// One u32 value of a document.
#[derive(Clone, Copy, PartialEq, Eq, Structural, Debug)]
pub struct U32FieldValue {
    pub field: Field,
    pub value: u32,
}

/// One input record: heterogeneous field values, partitioned by kind.
#[derive(Clone, PartialEq, Eq, Debug)]
pub struct Document {
    text_values: Vec<TextFieldValue>,
    u32_values: Vec<U32FieldValue>,
}

/// Mathematical model of a `Document`.
pub struct DocumentModel {
    pub text_values: Seq<TextValueModel>,
    pub u32_values: Seq<U32FieldValue>,
}

impl View for Document {
    type V = DocumentModel;

    closed spec fn view(&self) -> DocumentModel {
        DocumentModel {
            text_values: self.text_values@.map_values(|v: TextFieldValue| v@),
            u32_values: self.u32_values@,
        }
    }
}

/// Every field value of the document points at a schema slot of its own
/// kind.
pub open spec fn doc_valid(d: DocumentModel, s: Seq<FieldEntryModel>) -> bool {
    &&& forall|i: int| 0 <= i < d.text_values.len() ==> is_text_at(s, #[trigger] d.text_values[i].field as int)
    &&& forall|i: int| 0 <= i < d.u32_values.len() ==> is_u32_at(s, #[trigger] d.u32_values[i].field.ord as int)
}

impl Document {
    pub fn new() -> (d: Document)
        ensures
            d@.text_values == Seq::<TextValueModel>::empty(),
            d@.u32_values == Seq::<U32FieldValue>::empty(),
    {
        let d = Document { text_values: Vec::new(), u32_values: Vec::new() };
        proof {
            assert(d@.text_values =~= Seq::<TextValueModel>::empty());
            assert(d@.u32_values =~= Seq::<U32FieldValue>::empty());
        }
        d
    }

    pub fn add_text(&mut self, field: Field, text: &str)
        ensures
            final(self)@.text_values == old(self)@.text_values.push(
                TextValueModel { field: field.ord, text: text@ },
            ),
            final(self)@.u32_values == old(self)@.u32_values,
    {
        self.text_values.push(TextFieldValue { field, text: String::from_str(text) });
        proof {
            assert(self@.text_values =~= old(self)@.text_values.push(
                TextValueModel { field: field.ord, text: text@ },
            ));
        }
    }

    pub fn add_u32(&mut self, field: Field, value: u32)
        ensures
            final(self)@.u32_values == old(self)@.u32_values.push(U32FieldValue { field, value }),
            final(self)@.text_values == old(self)@.text_values,
    {
        self.u32_values.push(U32FieldValue { field, value });
    }

    pub fn text_fields(&self) -> (r: &Vec<TextFieldValue>)
        ensures
            r@.map_values(|v: TextFieldValue| v@) == self@.text_values,
    {
        &self.text_values
    }

    pub fn u32_fields(&self) -> (r: &Vec<U32FieldValue>)
        ensures
            r@ == self@.u32_values,
    {
        &self.u32_values
    }
}

} // verus!
