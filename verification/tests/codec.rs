use kafka_relay::decode::decode_record;
use kafka_relay::decode::DecodeError;
use kafka_relay::encode::encode_record;
use kafka_relay::record::DomainRecord;

fn example_record() -> DomainRecord {
    DomainRecord {
        id: "63c184fcdbc7219b330870d7".to_string(),
        crm_id: "355e0213-4ce5-4c74-8a8c-e96558f576a1".to_string(),
        is_active: true,
        age: 55,
        name: "Hurley Meyer".to_string(),
        company: "ONTAGENE".to_string(),
        gender: "male".to_string(),
        email: "hurleymeyer@ontagene.com".to_string(),
    }
}

fn example_json() -> String {
    "{\"_id\":\"63c184fcdbc7219b330870d7\",\
     \"crmId\":\"355e0213-4ce5-4c74-8a8c-e96558f576a1\",\
     \"isActive\":true,\"age\":55,\"name\":\"Hurley Meyer\",\
     \"company\":\"ONTAGENE\",\"gender\":\"male\",\
     \"email\":\"hurleymeyer@ontagene.com\"}"
        .to_string()
}

fn assert_same_record(a: &DomainRecord, b: &DomainRecord) {
    assert_eq!(a.id, b.id);
    assert_eq!(a.crm_id, b.crm_id);
    assert_eq!(a.is_active, b.is_active);
    assert_eq!(a.age, b.age);
    assert_eq!(a.name, b.name);
    assert_eq!(a.company, b.company);
    assert_eq!(a.gender, b.gender);
    assert_eq!(a.email, b.email);
}

#[test]
fn encode_example_is_canonical() {
    assert_eq!(encode_record(&example_record()), example_json());
}

#[test]
fn decode_example_round_trips() {
    let bytes = example_json().into_bytes();
    let rec = decode_record(&bytes).unwrap();
    assert_same_record(&rec, &example_record());
    assert_eq!(encode_record(&rec).into_bytes(), bytes);
}

#[test]
fn decode_accepts_whitespace_and_any_member_order() {
    let text = " { \"age\" : 55 ,\n\t\"email\" : \"e@x\", \"name\": \"N\",\r\n \"company\": \"C\", \"gender\": \"g\", \"isActive\" : false , \"crmId\": \"c\", \"_id\": \"i\" } ";
    let rec = decode_record(&text.as_bytes().to_vec()).unwrap();
    assert_eq!(rec.age, 55);
    assert_eq!(rec.id, "i");
    assert!(!rec.is_active);
    assert_eq!(rec.email, "e@x");
}

#[test]
fn decode_ignores_extra_members() {
    let text = "{\"_id\":\"i\",\"crmId\":\"c\",\"isActive\":true,\"age\":1,\"name\":\"n\",\"company\":\"o\",\"gender\":\"g\",\"email\":\"e\",\"extra\":null,\"score\":1.5e3,\"note\":\"x\"}";
    let rec = decode_record(&text.as_bytes().to_vec()).unwrap();
    assert_eq!(rec.id, "i");
    assert_eq!(rec.age, 1);
}

#[test]
fn decode_ignores_extra_members_of_any_shape() {
    let text = "{\"_id\":\"i\",\"x\":[1,{\"a\":false},[],\"s\"],\"crmId\":\"c\",\"isActive\":true,\"age\":1,\"y\":{\"k\":\"v\",\"n\":[1,2],\"o\":{}},\"name\":\"n\",\"company\":\"o\",\"gender\":\"g\",\"email\":\"e\",\"z\":[ ]}";
    let rec = decode_record(&text.as_bytes().to_vec()).unwrap();
    assert_eq!(rec.id, "i");
    assert_eq!(rec.age, 1);
    let spaced = "{ \"deep\" : [ { \"a\" : [ null , true ] } , -1.5 ] , \"_id\":\"i\",\"crmId\":\"c\",\"isActive\":true,\"age\":1,\"name\":\"n\",\"company\":\"o\",\"gender\":\"g\",\"email\":\"e\" }";
    assert!(decode_record(&spaced.as_bytes().to_vec()).is_ok());
}

#[test]
fn decode_rejects_malformed_extra_members() {
    let unclosed = "{\"_id\":\"i\",\"crmId\":\"c\",\"isActive\":true,\"age\":1,\"name\":\"n\",\"company\":\"o\",\"gender\":\"g\",\"email\":\"e\",\"x\":[1,}";
    assert_eq!(
        decode_record(&unclosed.as_bytes().to_vec()).unwrap_err(),
        DecodeError::Schema
    );
    let bad_inner = "{\"x\":{\"k\":}, \"_id\":\"i\",\"crmId\":\"c\",\"isActive\":true,\"age\":1,\"name\":\"n\",\"company\":\"o\",\"gender\":\"g\",\"email\":\"e\"}";
    assert_eq!(
        decode_record(&bad_inner.as_bytes().to_vec()).unwrap_err(),
        DecodeError::Schema
    );
}

#[test]
fn decode_rejects_composite_value_for_known_member() {
    let text = "{\"_id\":\"i\",\"crmId\":\"c\",\"isActive\":true,\"age\":[1],\"name\":\"n\",\"company\":\"o\",\"gender\":\"g\",\"email\":\"e\"}";
    assert_eq!(
        decode_record(&text.as_bytes().to_vec()).unwrap_err(),
        DecodeError::Schema
    );
    let text2 = "{\"_id\":{},\"crmId\":\"c\",\"isActive\":true,\"age\":1,\"name\":\"n\",\"company\":\"o\",\"gender\":\"g\",\"email\":\"e\"}";
    assert_eq!(
        decode_record(&text2.as_bytes().to_vec()).unwrap_err(),
        DecodeError::Schema
    );
}

#[test]
fn decode_reads_full_unicode_escapes() {
    let text = "{\"_id\":\"\\u0416\",\"crmId\":\"\\ud83d\\ude00\",\"isActive\":true,\"age\":0,\"name\":\"\\u00e9\",\"company\":\"\\uFFFD\",\"gender\":\"g\",\"email\":\"e\"}";
    let rec = decode_record(&text.as_bytes().to_vec()).unwrap();
    assert_eq!(rec.id, "\u{416}");
    assert_eq!(rec.crm_id, "\u{1F600}");
    assert_eq!(rec.name, "é");
    assert_eq!(rec.company, "\u{FFFD}");
}

#[test]
fn decode_rejects_lone_surrogate_escapes() {
    let high_alone = "{\"_id\":\"\\ud83d\",\"crmId\":\"c\",\"isActive\":true,\"age\":0,\"name\":\"n\",\"company\":\"o\",\"gender\":\"g\",\"email\":\"e\"}";
    assert_eq!(
        decode_record(&high_alone.as_bytes().to_vec()).unwrap_err(),
        DecodeError::Schema
    );
    let low_first = "{\"_id\":\"\\ude00\\ud83d\",\"crmId\":\"c\",\"isActive\":true,\"age\":0,\"name\":\"n\",\"company\":\"o\",\"gender\":\"g\",\"email\":\"e\"}";
    assert_eq!(
        decode_record(&low_first.as_bytes().to_vec()).unwrap_err(),
        DecodeError::Schema
    );
    let bad_hex = "{\"_id\":\"\\u12g4\",\"crmId\":\"c\",\"isActive\":true,\"age\":0,\"name\":\"n\",\"company\":\"o\",\"gender\":\"g\",\"email\":\"e\"}";
    assert_eq!(
        decode_record(&bad_hex.as_bytes().to_vec()).unwrap_err(),
        DecodeError::Schema
    );
}

#[test]
fn decode_unescapes_strings() {
    let text = "{\"_id\":\"a\\\"b\",\"crmId\":\"c\\\\d\",\"isActive\":true,\"age\":0,\"name\":\"l1\\nl2\",\"company\":\"t\\tu\",\"gender\":\"\\u0041\",\"email\":\"\\u000a\"}";
    let rec = decode_record(&text.as_bytes().to_vec()).unwrap();
    assert_eq!(rec.id, "a\"b");
    assert_eq!(rec.crm_id, "c\\d");
    assert_eq!(rec.name, "l1\nl2");
    assert_eq!(rec.company, "t\tu");
    assert_eq!(rec.gender, "A");
    assert_eq!(rec.email, "\n");
}

#[test]
fn encode_decode_round_trips_with_escapes() {
    let rec = DomainRecord {
        id: "quote \" backslash \\".to_string(),
        crm_id: "newline \n tab \t".to_string(),
        is_active: false,
        age: -2147483648,
        name: "bell \u{7} and unicode é".to_string(),
        company: "".to_string(),
        gender: "carriage \r return".to_string(),
        email: "backspace \u{8} formfeed \u{c}".to_string(),
    };
    let bytes = encode_record(&rec).into_bytes();
    let back = decode_record(&bytes).unwrap();
    assert_same_record(&back, &rec);
}

#[test]
fn decode_rejects_missing_member() {
    let text = "{\"_id\":\"i\",\"crmId\":\"c\",\"isActive\":true,\"age\":1,\"name\":\"n\",\"company\":\"o\",\"gender\":\"g\"}";
    assert_eq!(
        decode_record(&text.as_bytes().to_vec()).unwrap_err(),
        DecodeError::Schema
    );
}

#[test]
fn decode_rejects_mistyped_member() {
    let text = "{\"_id\":\"i\",\"crmId\":\"c\",\"isActive\":true,\"age\":\"55\",\"name\":\"n\",\"company\":\"o\",\"gender\":\"g\",\"email\":\"e\"}";
    assert_eq!(
        decode_record(&text.as_bytes().to_vec()).unwrap_err(),
        DecodeError::Schema
    );
    let text2 = "{\"_id\":\"i\",\"crmId\":\"c\",\"isActive\":1,\"age\":5,\"name\":\"n\",\"company\":\"o\",\"gender\":\"g\",\"email\":\"e\"}";
    assert_eq!(
        decode_record(&text2.as_bytes().to_vec()).unwrap_err(),
        DecodeError::Schema
    );
    let text3 = "{\"_id\":\"i\",\"crmId\":\"c\",\"isActive\":true,\"age\":5.5,\"name\":\"n\",\"company\":\"o\",\"gender\":\"g\",\"email\":\"e\"}";
    assert_eq!(
        decode_record(&text3.as_bytes().to_vec()).unwrap_err(),
        DecodeError::Schema
    );
}

#[test]
fn decode_rejects_age_out_of_range() {
    let text = "{\"_id\":\"i\",\"crmId\":\"c\",\"isActive\":true,\"age\":3000000000,\"name\":\"n\",\"company\":\"o\",\"gender\":\"g\",\"email\":\"e\"}";
    assert_eq!(
        decode_record(&text.as_bytes().to_vec()).unwrap_err(),
        DecodeError::Schema
    );
}

#[test]
fn decode_accepts_negative_age() {
    let text = "{\"_id\":\"i\",\"crmId\":\"c\",\"isActive\":true,\"age\":-12,\"name\":\"n\",\"company\":\"o\",\"gender\":\"g\",\"email\":\"e\"}";
    assert_eq!(decode_record(&text.as_bytes().to_vec()).unwrap().age, -12);
}

#[test]
fn decode_rejects_duplicate_member() {
    let text = "{\"_id\":\"i\",\"_id\":\"j\",\"crmId\":\"c\",\"isActive\":true,\"age\":1,\"name\":\"n\",\"company\":\"o\",\"gender\":\"g\",\"email\":\"e\"}";
    assert_eq!(
        decode_record(&text.as_bytes().to_vec()).unwrap_err(),
        DecodeError::Schema
    );
}

#[test]
fn decode_rejects_trailing_garbage_and_empty_object() {
    let good = example_json();
    let mut with_tail = good.clone().into_bytes();
    with_tail.push(b'x');
    assert_eq!(decode_record(&with_tail).unwrap_err(), DecodeError::Schema);
    assert_eq!(
        decode_record(&"{}".as_bytes().to_vec()).unwrap_err(),
        DecodeError::Schema
    );
    assert_eq!(
        decode_record(&"".as_bytes().to_vec()).unwrap_err(),
        DecodeError::Schema
    );
}

#[test]
fn decode_rejects_invalid_utf8() {
    let bytes = vec![0xff, 0xfe, 0x7b];
    assert_eq!(decode_record(&bytes).unwrap_err(), DecodeError::Utf8);
}

#[test]
fn encoded_form_agrees_with_serde_json() {
    let encoded = encode_record(&example_record());
    let v: serde_json::Value = serde_json::from_str(&encoded).unwrap();
    assert_eq!(v.get("_id").unwrap().as_str().unwrap(), "63c184fcdbc7219b330870d7");
    assert_eq!(v.get("isActive").unwrap().as_bool().unwrap(), true);
    assert_eq!(v.get("age").unwrap().as_i64().unwrap(), 55);
    assert_eq!(v.get("name").unwrap().as_str().unwrap(), "Hurley Meyer");
    assert_eq!(v.get("email").unwrap().as_str().unwrap(), "hurleymeyer@ontagene.com");
}

#[test]
fn serde_json_output_decodes() {
    let mut map = serde_json::Map::new();
    map.insert("_id".to_string(), serde_json::Value::String("i".to_string()));
    map.insert("crmId".to_string(), serde_json::Value::String("c".to_string()));
    map.insert("isActive".to_string(), serde_json::Value::Bool(true));
    map.insert("age".to_string(), serde_json::Value::from(7i64));
    map.insert("name".to_string(), serde_json::Value::String("n with \"quotes\"".to_string()));
    map.insert("company".to_string(), serde_json::Value::String("o".to_string()));
    map.insert("gender".to_string(), serde_json::Value::String("g".to_string()));
    map.insert("email".to_string(), serde_json::Value::String("e".to_string()));
    let text = serde_json::Value::Object(map).to_string();
    let rec = decode_record(&text.into_bytes()).unwrap();
    assert_eq!(rec.id, "i");
    assert_eq!(rec.age, 7);
    assert_eq!(rec.name, "n with \"quotes\"");
}
