use stream_records::decimal::{format_usize, parse_usize};
use stream_records::record::{DecodeError, Field, FieldMap, TimeData};

fn map_of(pairs: &[(&str, &str)]) -> FieldMap {
    let mut m = FieldMap::new();
    for (k, v) in pairs {
        m.insert(k.to_string(), v.to_string());
    }
    m
}

fn record(id: usize, owner: &str, message: &str) -> TimeData {
    TimeData { id, owner: owner.to_string(), message: message.to_string() }
}

fn assert_same(a: &TimeData, b: &TimeData) {
    assert_eq!(a.id, b.id);
    assert_eq!(a.owner, b.owner);
    assert_eq!(a.message, b.message);
}

#[test]
fn format_usize_writes_decimal() {
    assert_eq!(format_usize(0), "0");
    assert_eq!(format_usize(7), "7");
    assert_eq!(format_usize(1234), "1234");
    assert_eq!(format_usize(usize::MAX), usize::MAX.to_string());
}

#[test]
fn parse_usize_accepts_what_from_str_accepts() {
    assert_eq!(parse_usize("1"), Some(1));
    assert_eq!(parse_usize("007"), Some(7));
    assert_eq!(parse_usize("+5"), Some(5));
    assert_eq!(parse_usize(&usize::MAX.to_string()), Some(usize::MAX));
    for bad in ["", "+", "++5", "-1", "-0", "abc", "1a", " 1", "1.0", "١"] {
        assert_eq!(parse_usize(bad), None, "{bad:?}");
        assert_eq!(parse_usize(bad), bad.parse::<usize>().ok(), "{bad:?}");
    }
    let too_big = format!("{}0", usize::MAX);
    assert_eq!(parse_usize(&too_big), None);
}

#[test]
fn field_names() {
    assert_eq!(Field::Id.name(), "id");
    assert_eq!(Field::Owner.name(), "owner");
    assert_eq!(Field::Message.name(), "message");
}

#[test]
fn encode_gives_three_pairs_in_order() {
    let args = record(1, "Taro", "Hello world").into_redis_args();
    assert_eq!(
        args,
        vec![
            ("id".to_string(), "1".to_string()),
            ("owner".to_string(), "Taro".to_string()),
            ("message".to_string(), "Hello world".to_string()),
        ]
    );
}

#[test]
fn display_text_of_record() {
    assert_eq!(record(1, "Taro", "Hello world").display_text(), "(1) [Taro] Hello world");
    assert_eq!(record(42, "x", "").display_text(), "(42) [x] ");
}

#[test]
fn decode_of_encode_is_identity() {
    for r in [
        record(1, "Taro", "Hello world"),
        record(0, "x", ""),
        record(usize::MAX, "owner with spaces", "ünïcödé message"),
        record(10, "", "empty owner still decodes"),
    ] {
        let fields = FieldMap::from_pairs(&r.into_redis_args());
        assert_eq!(fields.len(), 3);
        let back = TimeData::from_fields(&fields).unwrap();
        assert_same(&back, &r);
    }
}

#[test]
fn from_pairs_later_value_wins() {
    let pairs = vec![
        ("id".to_string(), "1".to_string()),
        ("id".to_string(), "2".to_string()),
    ];
    let m = FieldMap::from_pairs(&pairs);
    assert_eq!(m.len(), 1);
    assert_eq!(m.get("id").unwrap(), "2");
}

#[test]
fn missing_owner_is_reported() {
    let m = map_of(&[("id", "1"), ("message", "hi")]);
    assert_eq!(TimeData::from_fields(&m).err(), Some(DecodeError::MissingField(Field::Owner)));
}

#[test]
fn invalid_id_is_reported() {
    let m = map_of(&[("id", "abc"), ("owner", "x"), ("message", "y")]);
    assert_eq!(TimeData::from_fields(&m).err(), Some(DecodeError::InvalidFormat(Field::Id)));
}

#[test]
fn negative_id_is_invalid() {
    let m = map_of(&[("id", "-1"), ("owner", "x"), ("message", "y")]);
    assert_eq!(TimeData::from_fields(&m).err(), Some(DecodeError::InvalidFormat(Field::Id)));
}

#[test]
fn extra_field_is_ignored() {
    let m = map_of(&[("id", "1"), ("owner", "x"), ("message", "y"), ("extra", "z")]);
    let r = TimeData::from_fields(&m).unwrap();
    assert_same(&r, &record(1, "x", "y"));
}

#[test]
fn missing_id_is_reported() {
    let m = map_of(&[("owner", "x"), ("message", "y")]);
    assert_eq!(TimeData::from_fields(&m).err(), Some(DecodeError::MissingField(Field::Id)));
}

#[test]
fn missing_message_is_reported() {
    let m = map_of(&[("id", "3"), ("owner", "x")]);
    assert_eq!(TimeData::from_fields(&m).err(), Some(DecodeError::MissingField(Field::Message)));
}

#[test]
fn first_failing_field_wins() {
    let m = map_of(&[("id", "zz")]);
    assert_eq!(TimeData::from_fields(&m).err(), Some(DecodeError::InvalidFormat(Field::Id)));
    let m = map_of(&[("id", "1")]);
    assert_eq!(TimeData::from_fields(&m).err(), Some(DecodeError::MissingField(Field::Owner)));
    let m = FieldMap::new();
    assert_eq!(TimeData::from_fields(&m).err(), Some(DecodeError::MissingField(Field::Id)));
}
