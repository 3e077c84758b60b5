//! Record shapes: a tokenized row on its way through decoding, and the two
//! output shapes a consumer can ask for.

use vstd::prelude::*;
use crate::interner::StringCacheKey;
use crate::text::lossy_repair;

verus! {

/// One field's text, owned by the record that holds it.
///
/// Sharing one canonical empty-string allocation across records is a
/// host-side optimization; here every value is owned, and equal values are
/// indistinguishable.
#[derive(Debug)]
pub struct CowStr(pub Vec<u8>);

impl View for CowStr {
    type V = Seq<u8>;

    open spec fn view(&self) -> Seq<u8> {
        self.0@
    }
}

impl DeepView for CowStr {
    type V = Seq<u8>;

    open spec fn deep_view(&self) -> Seq<u8> {
        self.0@
    }
}

/// A tokenized row on its way to becoming a record: raw bytes under the
/// `lossy` flag (each field decoded lossily when read), already-validated
/// text otherwise.
pub enum CsvRecordType {
    /// Raw field bytes; each field is repaired lossily when its value is
    /// taken.
    Byte(Vec<Vec<u8>>),
    /// Fields whose bytes are known to be valid text.
    Text(Vec<Vec<u8>>),
}

impl CsvRecordType {
    /// The raw fields behind either shape.
    pub open spec fn spec_fields(&self) -> Seq<Seq<u8>> {
        match self {
            CsvRecordType::Byte(fs) => fs.deep_view(),
            CsvRecordType::Text(fs) => fs.deep_view(),
        }
    }

    /// How many fields the row holds.
    pub open spec fn spec_len(&self) -> int {
        self.spec_fields().len() as int
    }

    /// Whether this row's fields still need lossy repair when read.
    pub open spec fn spec_lossy(&self) -> bool {
        self is Byte
    }

    /// The text of field `i` once decoding is applied: lossy repair for a
    /// byte row, the bytes themselves for a text row.
    pub open spec fn spec_text(&self, i: int) -> Seq<u8> {
        match self {
            CsvRecordType::Byte(fs) => lossy_repair(fs.deep_view()[i]),
            CsvRecordType::Text(fs) => fs.deep_view()[i],
        }
    }

    pub fn len(&self) -> (r: usize)
        ensures
            r as int == self.spec_len(),
    {
        match self {
            CsvRecordType::Byte(fs) => fs.len(),
            CsvRecordType::Text(fs) => fs.len(),
        }
    }
}

/// A parsed record, in one of the two output shapes. A `None` value is a
/// field that matched the configured null marker (or an unfilled column in a
/// flexible short row with no default).
#[derive(Debug)]
pub enum CsvRecord {
    /// Values ordered by column index.
    FieldList(Vec<Option<CowStr>>),
    /// Values keyed by interned header handle; keys are unique and insertion
    /// order carries no meaning.
    FieldMap(Vec<(StringCacheKey, Option<CowStr>)>),
}

impl CsvRecord {
    /// How many entries the record holds.
    pub open spec fn spec_entry_count(&self) -> int {
        match self {
            CsvRecord::FieldList(vs) => vs@.len() as int,
            CsvRecord::FieldMap(ps) => ps@.len() as int,
        }
    }

    pub fn entry_count(&self) -> (r: usize)
        ensures
            r as int == self.spec_entry_count(),
    {
        match self {
            CsvRecord::FieldList(vs) => vs.len(),
            CsvRecord::FieldMap(ps) => ps.len(),
        }
    }
}

} // verus!
