//! The typed record and its codec to and from a map of string fields.
use vstd::hash_map::StringHashMap;
use vstd::prelude::*;

use crate::decimal::{decimal_text, format_usize, lemma_usize_text_round_trip, parse_usize, usize_of_text};

verus! {

/// One of the three fields that a record is stored as.
#[derive(Clone, Copy, Debug, PartialEq, Eq, Structural)]
pub enum Field {
    Id,
    Owner,
    Message,
}

/// Why a field map, or a raw log entry, could not be read.
#[derive(Clone, Copy, Debug, PartialEq, Eq, Structural)]
pub enum DecodeError {
    /// The map has no value under the field's name.
    MissingField(Field),
    /// The value under the field's name is not in the field's format.
    InvalidFormat(Field),
    /// A raw entry is not an id beside a list of field/value pairs.
    MalformedEntry,
}

/// The name under which a field is stored.
pub open spec fn field_key(f: Field) -> Seq<char> {
    match f {
        Field::Id => seq!['i', 'd'],
        Field::Owner => seq!['o', 'w', 'n', 'e', 'r'],
        Field::Message => seq!['m', 'e', 's', 's', 'a', 'g', 'e'],
    }
}

impl Field {
    /// The name under which the field is stored.
    pub fn name(&self) -> (r: &'static str)
        ensures
            r@ == field_key(*self),
    {
        match self {
            Field::Id => {
                proof { reveal_strlit("id"); }
                "id"
            },
            Field::Owner => {
                proof { reveal_strlit("owner"); }
                "owner"
            },
            Field::Message => {
                proof { reveal_strlit("message"); }
                "message"
            },
        }
    }
}

/// A map from field name to field value, as a log entry carries it.
pub struct FieldMap {
    entries: StringHashMap<String>,
}

impl View for FieldMap {
    type V = Map<Seq<char>, Seq<char>>;

    closed spec fn view(&self) -> Map<Seq<char>, Seq<char>> {
        self.entries@.map_values(|v: String| v@)
    }
}

impl FieldMap {
    /// An empty map.
    pub fn new() -> (r: FieldMap)
        ensures
            r@ == Map::<Seq<char>, Seq<char>>::empty(),
    {
        let r = FieldMap { entries: StringHashMap::new() };
        assert(r@ =~= Map::<Seq<char>, Seq<char>>::empty());
        r
    }

    /// Sets `name` to `value`, replacing any value it had.
    pub fn insert(&mut self, name: String, value: String)
        ensures
            final(self)@ == old(self)@.insert(name@, value@),
    {
        self.entries.insert(name, value);
        assert(self@ =~= old(self)@.insert(name@, value@));
    }

    /// The value stored under `name`, if any.
    pub fn get(&self, name: &str) -> (r: Option<&String>)
        ensures
            match r {
                Some(v) => self@.contains_key(name@) && v@ == self@[name@],
                None => !self@.contains_key(name@),
            },
    {
        self.entries.get(name)
    }

    /// The map that storing each pair in turn gives.
    pub fn from_pairs(pairs: &Vec<(String, String)>) -> (r: FieldMap)
        ensures
            r@ == pairs_map(pairs@.map_values(|p: (String, String)| (p.0@, p.1@))),
    {
        let ghost pv = pairs@.map_values(|p: (String, String)| (p.0@, p.1@));
        let mut r = FieldMap::new();
        let mut i: usize = 0;
        while i < pairs.len()
            invariant
                i <= pairs@.len(),
                pv == pairs@.map_values(|p: (String, String)| (p.0@, p.1@)),
                r@ == pairs_map(pv.subrange(0, i as int)),
            decreases pairs@.len() - i,
        {
            let ghost prefix = pv.subrange(0, i as int + 1);
            assert(prefix.drop_last() =~= pv.subrange(0, i as int));
            r.insert(pairs[i].0.clone(), pairs[i].1.clone());
            i = i + 1;
        }
        assert(pv.subrange(0, pairs@.len() as int) =~= pv);
        r
    }

    /// The number of names in the map.
    pub fn len(&self) -> (r: usize)
        ensures
            r == self@.len(),
    {
        broadcast use vstd::hash_map::group_hash_map_axioms;
        assert(self@.dom() =~= self.entries@.dom());
        self.entries.len()
    }
}

/// What a record holds: its id and two texts.
pub struct RecordModel {
    pub id: usize,
    pub owner: Seq<char>,
    pub message: Seq<char>,
}

/// An application record: a numeric id, the name of its owner and a message.
pub struct TimeData {
    pub id: usize,
    pub owner: String,
    pub message: String,
}

impl View for TimeData {
    type V = RecordModel;

    open spec fn view(&self) -> RecordModel {
        RecordModel { id: self.id, owner: self.owner@, message: self.message@ }
    }
}

/// The field/value pairs that a record is written as, in this order.
pub open spec fn encode_model(r: RecordModel) -> Seq<(Seq<char>, Seq<char>)> {
    seq![
        (field_key(Field::Id), decimal_text(r.id as nat)),
        (field_key(Field::Owner), r.owner),
        (field_key(Field::Message), r.message),
    ]
}

/// The record that a field map holds, or the first field, in the order id,
/// owner, message, that is missing or unreadable. Other names are ignored.
pub open spec fn decode_model(m: Map<Seq<char>, Seq<char>>) -> Result<RecordModel, DecodeError> {
    let id = field_key(Field::Id);
    let owner = field_key(Field::Owner);
    let message = field_key(Field::Message);
    if !m.contains_key(id) {
        Err(DecodeError::MissingField(Field::Id))
    } else if usize_of_text(m[id]) is None {
        Err(DecodeError::InvalidFormat(Field::Id))
    } else if !m.contains_key(owner) {
        Err(DecodeError::MissingField(Field::Owner))
    } else if !m.contains_key(message) {
        Err(DecodeError::MissingField(Field::Message))
    } else {
        Ok(RecordModel { id: usize_of_text(m[id])->Some_0, owner: m[owner], message: m[message] })
    }
}

/// The map that a sequence of pairs gives when each is stored in turn, a
/// later value for a name replacing an earlier one.
pub open spec fn pairs_map(s: Seq<(Seq<char>, Seq<char>)>) -> Map<Seq<char>, Seq<char>>
    decreases s.len(),
{
    if s.len() == 0 {
        Map::empty()
    } else {
        pairs_map(s.drop_last()).insert(s.last().0, s.last().1)
    }
}

/// The model of a decoded record, or the error.
pub open spec fn decoded_model(r: Result<TimeData, DecodeError>) -> Result<RecordModel, DecodeError> {
    match r {
        Ok(t) => Ok(t@),
        Err(e) => Err(e),
    }
}

impl TimeData {
    /// The field/value pairs to append to a log for this record.
    pub fn into_redis_args(&self) -> (r: Vec<(String, String)>)
        ensures
            r@.map_values(|p: (String, String)| (p.0@, p.1@)) == encode_model(self@),
    {
        let mut r: Vec<(String, String)> = Vec::new();
        r.push((Field::Id.name().to_owned(), format_usize(self.id)));
        r.push((Field::Owner.name().to_owned(), self.owner.clone()));
        r.push((Field::Message.name().to_owned(), self.message.clone()));
        assert(r@.map_values(|p: (String, String)| (p.0@, p.1@)) =~= encode_model(self@));
        r
    }

    /// The record as one line of text: `(id) [owner] message`.
    pub fn display_text(&self) -> (r: String)
        ensures
            r@ == "("@ + decimal_text(self.id as nat) + ") ["@ + self.owner@ + "] "@ + self.message@,
    {
        let mut r = String::from_str("(");
        r.append(format_usize(self.id).as_str());
        r.append(") [");
        r.append(self.owner.as_str());
        r.append("] ");
        r.append(self.message.as_str());
        r
    }

    /// Reads a record from a field map.
    pub fn from_fields(fields: &FieldMap) -> (r: Result<TimeData, DecodeError>)
        ensures
            decoded_model(r) == decode_model(fields@),
    {
        let id = match fields.get(Field::Id.name()) {
            None => {
                return Err(DecodeError::MissingField(Field::Id));
            },
            Some(text) => match parse_usize(text.as_str()) {
                None => {
                    return Err(DecodeError::InvalidFormat(Field::Id));
                },
                Some(n) => n,
            },
        };
        let owner = match fields.get(Field::Owner.name()) {
            None => {
                return Err(DecodeError::MissingField(Field::Owner));
            },
            Some(text) => text.clone(),
        };
        let message = match fields.get(Field::Message.name()) {
            None => {
                return Err(DecodeError::MissingField(Field::Message));
            },
            Some(text) => text.clone(),
        };
        Ok(TimeData { id, owner, message })
    }
}

/// Decoding the pairs a record is encoded as gives back the record.
pub proof fn lemma_decode_encode(r: RecordModel)
    ensures
        decode_model(pairs_map(encode_model(r))) == Ok::<RecordModel, DecodeError>(r),
{
    let s = encode_model(r);
    let s1 = seq![s[0]];
    let s2 = seq![s[0], s[1]];
    assert(s1.drop_last() =~= Seq::<(Seq<char>, Seq<char>)>::empty());
    assert(s2.drop_last() =~= s1);
    assert(s.drop_last() =~= s2);
    let m1 = Map::<Seq<char>, Seq<char>>::empty().insert(s[0].0, s[0].1);
    assert(pairs_map(s1.drop_last()) == Map::<Seq<char>, Seq<char>>::empty());
    assert(pairs_map(s1) == m1);
    assert(pairs_map(s2) == m1.insert(s[1].0, s[1].1));
    assert(pairs_map(s) == m1.insert(s[1].0, s[1].1).insert(s[2].0, s[2].1));
    let m = pairs_map(s);
    assert(field_key(Field::Id) != field_key(Field::Owner));
    assert(field_key(Field::Id) != field_key(Field::Message));
    assert(field_key(Field::Owner) != field_key(Field::Message));
    lemma_usize_text_round_trip(r.id);
    assert(m[field_key(Field::Id)] == decimal_text(r.id as nat));
}

} // verus!
