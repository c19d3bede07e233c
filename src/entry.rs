//! Raw log entries: reading the store's nested reply into an id and a field
//! map, and decoding a batch of entries into records one by one.
use vstd::prelude::*;

use crate::record::{decode_model, decoded_model, DecodeError, FieldMap, RecordModel, TimeData};

verus! {

/// A reply value of the log store, reduced to the shapes an entry is read
/// from.
pub enum Reply {
    /// A byte string.
    Data(Vec<u8>),
    /// A sequence of nested replies.
    Bulk(Vec<Reply>),
    /// Any other reply: nil, an integer or a status.
    Other,
}

/// The text that a byte string reads as, invalid UTF-8 sequences replaced by
/// U+FFFD.
pub uninterp spec fn utf8_lossy(b: Seq<u8>) -> Seq<char>;

/// Relies on `String::from_utf8_lossy`: the text of a byte string, which
/// depends on the bytes alone.
#[verifier::external_body]
fn lossy_string(b: &Vec<u8>) -> (r: String)
    ensures
        r@ == utf8_lossy(b@),
{
    String::from_utf8_lossy(b).into_owned()
}

/// The fields given by the first `k` name/value pairs of a flat list: a pair
/// counts only when both of its halves are byte strings.
pub open spec fn pair_fields(items: Seq<Reply>, k: nat) -> Map<Seq<char>, Seq<char>>
    decreases k,
{
    if k == 0 {
        Map::empty()
    } else {
        let m = pair_fields(items, (k - 1) as nat);
        let i = 2 * (k - 1);
        match (items[i], items[i + 1]) {
            (Reply::Data(name), Reply::Data(value)) => m.insert(utf8_lossy(name@), utf8_lossy(value@)),
            _ => m,
        }
    }
}

/// The fields of an entry's pair list; a trailing unpaired element is
/// dropped, and a pair list that is no sequence gives no fields.
pub open spec fn fields_model(v: Reply) -> Map<Seq<char>, Seq<char>> {
    match v {
        Reply::Bulk(items) => pair_fields(items@, items@.len() / 2),
        _ => Map::empty(),
    }
}

/// What an entry holds: its id and its fields.
pub struct EntryModel {
    pub id: Seq<char>,
    pub fields: Map<Seq<char>, Seq<char>>,
}

/// The entry a reply describes: a two-element sequence of an id byte string
/// and a pair list. Any other shape is a malformed entry.
pub open spec fn entry_model(v: Reply) -> Result<EntryModel, DecodeError> {
    match v {
        Reply::Bulk(items) => {
            if items@.len() != 2 {
                Err(DecodeError::MalformedEntry)
            } else {
                match items@[0] {
                    Reply::Data(id) => Ok(
                        EntryModel { id: utf8_lossy(id@), fields: fields_model(items@[1]) },
                    ),
                    _ => Err(DecodeError::MalformedEntry),
                }
            }
        },
        _ => Err(DecodeError::MalformedEntry),
    }
}

/// One entry of a log, as read back from the store.
pub struct StreamEntry {
    pub id: String,
    pub fields: FieldMap,
}

impl View for StreamEntry {
    type V = EntryModel;

    open spec fn view(&self) -> EntryModel {
        EntryModel { id: self.id@, fields: self.fields@ }
    }
}

/// The model of a parsed entry, or the error.
pub open spec fn parsed_model(r: Result<StreamEntry, DecodeError>) -> Result<EntryModel, DecodeError> {
    match r {
        Ok(e) => Ok(e@),
        Err(e) => Err(e),
    }
}

impl StreamEntry {
    /// Reads an entry from the store's reply for it.
    pub fn from_redis_value(v: &Reply) -> (r: Result<StreamEntry, DecodeError>)
        ensures
            parsed_model(r) == entry_model(*v),
    {
        match v {
            Reply::Bulk(items) => {
                if items.len() != 2 {
                    return Err(DecodeError::MalformedEntry);
                }
                let id = match &items[0] {
                    Reply::Data(data) => lossy_string(data),
                    _ => {
                        return Err(DecodeError::MalformedEntry);
                    },
                };
                let fields = read_pairs(&items[1]);
                Ok(StreamEntry { id, fields })
            },
            _ => Err(DecodeError::MalformedEntry),
        }
    }
}

/// Reads the field map of an entry's pair list, skipping pairs that are not
/// two byte strings.
fn read_pairs(v: &Reply) -> (r: FieldMap)
    ensures
        r@ == fields_model(*v),
{
    let mut fields = FieldMap::new();
    match v {
        Reply::Bulk(pairs) => {
            let n = pairs.len() / 2;
            let mut k: usize = 0;
            while k < n
                invariant
                    n == pairs@.len() / 2,
                    2 * n <= pairs@.len() <= usize::MAX,
                    k <= n,
                    fields@ == pair_fields(pairs@, k as nat),
                decreases n - k,
            {
                let i = 2 * k;
                match (&pairs[i], &pairs[i + 1]) {
                    (Reply::Data(name), Reply::Data(value)) => {
                        fields.insert(lossy_string(name), lossy_string(value));
                    },
                    _ => {},
                }
                k = k + 1;
            }
        },
        _ => {},
    }
    fields
}

/// One entry of a range read beside the outcome of decoding it.
pub struct DecodedEntry {
    pub entry: StreamEntry,
    pub record: Result<TimeData, DecodeError>,
}

impl View for DecodedEntry {
    type V = (EntryModel, Result<RecordModel, DecodeError>);

    open spec fn view(&self) -> (EntryModel, Result<RecordModel, DecodeError>) {
        (self.entry@, decoded_model(self.record))
    }
}

/// What a range read yields for a list of raw entries, in their order: each
/// entry that parses, with the outcome of decoding it; entries that do not
/// parse are left out.
pub open spec fn range_model(raw: Seq<Reply>) -> Seq<(EntryModel, Result<RecordModel, DecodeError>)>
    decreases raw.len(),
{
    if raw.len() == 0 {
        Seq::empty()
    } else {
        let prev = range_model(raw.drop_last());
        match entry_model(raw.last()) {
            Ok(e) => prev.push((e, decode_model(e.fields))),
            Err(_) => prev,
        }
    }
}

/// Parses and decodes each raw entry of a range read on its own: an entry
/// that fails to decode is kept with its error, one that fails to parse is
/// dropped, and neither affects the others.
pub fn decode_range(raw: &Vec<Reply>) -> (r: Vec<DecodedEntry>)
    ensures
        r@.map_values(|d: DecodedEntry| d@) == range_model(raw@),
{
    let mut out: Vec<DecodedEntry> = Vec::new();
    let mut i: usize = 0;
    while i < raw.len()
        invariant
            i <= raw@.len(),
            out@.map_values(|d: DecodedEntry| d@) == range_model(raw@.subrange(0, i as int)),
        decreases raw@.len() - i,
    {
        let ghost prefix = raw@.subrange(0, i as int + 1);
        assert(prefix.drop_last() =~= raw@.subrange(0, i as int));
        assert(prefix.last() == raw@[i as int]);
        match StreamEntry::from_redis_value(&raw[i]) {
            Ok(entry) => {
                let record = TimeData::from_fields(&entry.fields);
                let ghost before = out@;
                out.push(DecodedEntry { entry, record });
                assert(out@.map_values(|d: DecodedEntry| d@) =~= before.map_values(
                    |d: DecodedEntry| d@,
                ).push(out@.last()@));
            },
            Err(_) => {},
        }
        i = i + 1;
    }
    assert(raw@.subrange(0, raw@.len() as int) =~= raw@);
    out
}

/// Reading a batch entry by entry: the result for two lists read together is
/// the result for the first followed by the result for the second.
pub proof fn lemma_range_concat(a: Seq<Reply>, b: Seq<Reply>)
    ensures
        range_model(a + b) == range_model(a) + range_model(b),
    decreases b.len(),
{
    if b.len() == 0 {
        assert(a + b =~= a);
        assert(range_model(a) + range_model(b) =~= range_model(a));
    } else {
        lemma_range_concat(a, b.drop_last());
        assert((a + b).drop_last() =~= a + b.drop_last());
        assert((a + b).last() == b.last());
        match entry_model(b.last()) {
            Ok(e) => {
                assert(range_model(a + b) =~= range_model(a) + range_model(b));
            },
            Err(_) => {},
        }
    }
}

} // verus!
