use laptop_selector::api::{
    details_request, docket_of, listing_ids_request, parse_details_answer, parse_ids_answer,
    parse_listing, JsonValue,
};
use laptop_selector::model::Error;

fn obj(entries: Vec<(&str, JsonValue)>) -> JsonValue {
    JsonValue::Object(entries.into_iter().map(|(k, v)| (String::from(k), v)).collect())
}

fn text(s: &str) -> JsonValue {
    JsonValue::Str(String::from(s))
}

fn product(docket: JsonValue) -> JsonValue {
    obj(vec![
        ("id", JsonValue::Int(345)),
        ("title", text("Laptop X")),
        ("price", JsonValue::Int(23999)),
        ("href", text("https://shop/345/")),
        ("docket", docket),
        ("image_main", text("https://img/345.jpg")),
    ])
}

#[test]
fn request_strings() {
    assert_eq!(
        listing_ids_request(3),
        "get?front-type=xl&country=UA&lang=ua&page=3&category_id=80004"
    );
    assert_eq!(
        details_request(&vec![1, 22, 333]),
        "getDetails?country=UA&lang=ua&with_groups=1&with_docket=1&goods_group_href=1&product_ids=1,22,333"
    );
}

#[test]
fn ids_answer_is_read() {
    let answer = obj(vec![(
        "data",
        obj(vec![
            ("total_pages", JsonValue::Int(67)),
            ("ids", JsonValue::Array(vec![JsonValue::Int(5), JsonValue::UInt(u64::MAX)])),
        ]),
    )]);
    assert_eq!(parse_ids_answer(&answer), Ok((67, vec![5, u64::MAX])));
}

#[test]
fn ids_answer_without_pages_counts_zero() {
    let answer = obj(vec![("data", obj(vec![("ids", JsonValue::Array(vec![]))]))]);
    assert_eq!(parse_ids_answer(&answer), Ok((0, vec![])));
}

#[test]
fn ids_answer_with_bad_ids_fails() {
    let answer = obj(vec![("data", obj(vec![("ids", JsonValue::Array(vec![JsonValue::Int(-1)]))]))]);
    assert_eq!(parse_ids_answer(&answer), Err(Error::MissingField));
    assert_eq!(parse_ids_answer(&JsonValue::Null), Err(Error::MissingField));
}

#[test]
fn docket_text_or_first_value_title() {
    assert_eq!(docket_of(&product(text("i5 / 8GB"))), "i5 / 8GB");
    let listed = JsonValue::Array(vec![obj(vec![("value_title", text("Ryzen 5 / 16GB"))])]);
    assert_eq!(docket_of(&product(listed)), "Ryzen 5 / 16GB");
    assert_eq!(docket_of(&product(JsonValue::Array(vec![]))), "");
    assert_eq!(docket_of(&product(JsonValue::Array(vec![text("x")]))), "");
    assert_eq!(docket_of(&product(JsonValue::Null)), "");
}

#[test]
fn product_becomes_a_listing() {
    let l = parse_listing(&product(text("i5 / 8GB"))).unwrap();
    assert_eq!(l.id, 345);
    assert_eq!(l.description, "Laptop X");
    assert_eq!(l.price, 23999);
    assert_eq!(l.url, "https://shop/345/");
    assert_eq!(l.composition, "i5 / 8GB");
    assert_eq!(l.image, "https://img/345.jpg");
}

#[test]
fn product_without_price_fails() {
    let p = obj(vec![("id", JsonValue::Int(1)), ("title", text("t")), ("href", text("h"))]);
    assert_eq!(parse_listing(&p), Err(Error::MissingField));
}

#[test]
fn details_answer_is_read_in_order() {
    let answer = obj(vec![("data", JsonValue::Array(vec![product(text("a")), product(JsonValue::Null)]))]);
    let ls = parse_details_answer(&answer).unwrap();
    assert_eq!(ls.len(), 2);
    assert_eq!(ls[0].composition, "a");
    assert_eq!(ls[1].composition, "");
    let bad = obj(vec![("data", JsonValue::Array(vec![product(text("a")), JsonValue::Int(3)]))]);
    assert_eq!(parse_details_answer(&bad), Err(Error::MissingField));
}

#[test]
fn json_accessors() {
    let v = obj(vec![("a", JsonValue::Int(-2)), ("a", JsonValue::Int(9))]);
    assert!(matches!(v.get("a"), Some(JsonValue::Int(-2))));
    assert!(v.get("b").is_none());
    assert_eq!(JsonValue::Int(-2).as_u64(), None);
    assert_eq!(JsonValue::UInt(7).as_i64(), None);
    assert_eq!(text("s").as_str(), Some("s"));
}
