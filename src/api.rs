//! The listing data endpoint: the requests sent to it and the reading of its
//! JSON answers into listings.
use vstd::prelude::*;
use crate::model::{Error, RawListing};
use crate::text::{decimal_string, push_decimal, push_str, str_eq};

verus! {

/// A JSON value as the endpoint's answers are read. Integral numbers keep
/// their value; other numbers are only known to be numbers.
#[derive(Debug)]
pub enum JsonValue {
    Null,
    Bool(bool),
    Int(i64),
    /// An integer above `i64::MAX`.
    UInt(u64),
    OtherNumber,
    Str(String),
    Array(Vec<JsonValue>),
    Object(Vec<(String, JsonValue)>),
}

/// The value under `key` in an object: the first entry with that key.
pub open spec fn field_of(entries: Seq<(String, JsonValue)>, key: Seq<char>) -> Option<JsonValue>
    decreases entries.len(),
{
    if entries.len() == 0 {
        None
    } else if entries[0].0@ == key {
        Some(entries[0].1)
    } else {
        field_of(entries.drop_first(), key)
    }
}

/// `v[key]`: the value under `key` when `v` is an object holding it.
pub open spec fn member(v: JsonValue, key: Seq<char>) -> Option<JsonValue> {
    match v {
        JsonValue::Object(entries) => field_of(entries@, key),
        _ => None,
    }
}

pub open spec fn member_as_u64(v: Option<JsonValue>) -> Option<u64> {
    match v {
        Some(JsonValue::Int(n)) => if n >= 0 {
            Some(n as u64)
        } else {
            None
        },
        Some(JsonValue::UInt(n)) => Some(n),
        _ => None,
    }
}

pub open spec fn member_as_i64(v: Option<JsonValue>) -> Option<i64> {
    match v {
        Some(JsonValue::Int(n)) => Some(n),
        _ => None,
    }
}

pub open spec fn member_as_str(v: Option<JsonValue>) -> Option<Seq<char>> {
    match v {
        Some(JsonValue::Str(s)) => Some(s@),
        _ => None,
    }
}

impl JsonValue {
    /// The value under `key`, when this is an object holding it.
    pub fn get(&self, key: &str) -> (r: Option<&JsonValue>)
        ensures
            match member(*self, key@) {
                Some(v) => r is Some && *r.unwrap() == v,
                None => r is None,
            },
    {
        match self {
            JsonValue::Object(entries) => {
                let mut i: usize = 0;
                assert(entries@.subrange(0, entries@.len() as int) =~= entries@);
                while i < entries.len()
                    invariant
                        i <= entries.len(),
                        member(*self, key@) == field_of(entries@, key@),
                        field_of(entries@, key@) == field_of(
                            entries@.subrange(i as int, entries@.len() as int),
                            key@,
                        ),
                    decreases entries.len() - i,
                {
                    let ghost rest = entries@.subrange(i as int, entries@.len() as int);
                    assert(rest.drop_first() =~= entries@.subrange(i + 1, entries@.len() as int));
                    assert(rest[0] == entries@[i as int]);
                    if str_eq(entries[i].0.as_str(), key) {
                        assert(field_of(rest, key@) == Some(entries@[i as int].1));
                        return Some(&entries[i].1);
                    }
                    i = i + 1;
                }
                None
            },
            _ => None,
        }
    }

    pub fn as_u64(&self) -> (r: Option<u64>)
        ensures
            r == member_as_u64(Some(*self)),
    {
        match self {
            JsonValue::Int(n) => if *n >= 0 {
                Some(*n as u64)
            } else {
                None
            },
            JsonValue::UInt(n) => Some(*n),
            _ => None,
        }
    }

    pub fn as_i64(&self) -> (r: Option<i64>)
        ensures
            r == member_as_i64(Some(*self)),
    {
        match self {
            JsonValue::Int(n) => Some(*n),
            _ => None,
        }
    }

    pub fn as_str(&self) -> (r: Option<&str>)
        ensures
            match member_as_str(Some(*self)) {
                Some(s) => r is Some && r.unwrap()@ == s,
                None => r is None,
            },
    {
        match self {
            JsonValue::Str(s) => Some(s.as_str()),
            _ => None,
        }
    }
}

fn member_u64(v: &JsonValue, key: &str) -> (r: Option<u64>)
    ensures
        r == member_as_u64(member(*v, key@)),
{
    match v.get(key) {
        Some(x) => x.as_u64(),
        None => None,
    }
}

fn member_i64(v: &JsonValue, key: &str) -> (r: Option<i64>)
    ensures
        r == member_as_i64(member(*v, key@)),
{
    match v.get(key) {
        Some(x) => x.as_i64(),
        None => None,
    }
}

fn member_str(v: &JsonValue, key: &str) -> (r: Option<String>)
    ensures
        match member_as_str(member(*v, key@)) {
            Some(s) => r is Some && r.unwrap()@ == s,
            None => r is None,
        },
{
    match v.get(key) {
        Some(x) => match x.as_str() {
            Some(s) => Some(String::from_str(s)),
            None => None,
        },
        None => None,
    }
}

/// The request for the ids on one page of the laptop category.
pub open spec fn ids_request(page: u64) -> Seq<char> {
    "get?front-type=xl&country=UA&lang=ua&page="@ + decimal_string(page as nat) + "&category_id=80004"@
}

pub fn listing_ids_request(page: u64) -> (r: String)
    ensures
        r@ == ids_request(page),
{
    let mut out = String::from_str("get?front-type=xl&country=UA&lang=ua&page=");
    push_decimal(&mut out, page);
    push_str(&mut out, "&category_id=80004");
    out
}

/// The ids written in decimal and separated by commas.
pub open spec fn id_list(ids: Seq<u64>) -> Seq<char>
    decreases ids.len(),
{
    if ids.len() == 0 {
        Seq::empty()
    } else if ids.len() == 1 {
        decimal_string(ids[0] as nat)
    } else {
        id_list(ids.drop_last()) + ","@ + decimal_string(ids.last() as nat)
    }
}

/// The request for the details of all the given products at once.
pub open spec fn details_request_of(ids: Seq<u64>) -> Seq<char> {
    "getDetails?country=UA&lang=ua&with_groups=1&with_docket=1&goods_group_href=1&product_ids="@
        + id_list(ids)
}

pub fn details_request(ids: &Vec<u64>) -> (r: String)
    ensures
        r@ == details_request_of(ids@),
{
    let mut out = String::from_str(
        "getDetails?country=UA&lang=ua&with_groups=1&with_docket=1&goods_group_href=1&product_ids=",
    );
    let ghost head = out@;
    let mut i: usize = 0;
    while i < ids.len()
        invariant
            i <= ids.len(),
            out@ == head + id_list(ids@.subrange(0, i as int)),
        decreases ids.len() - i,
    {
        let ghost before = out@;
        if i > 0 {
            push_str(&mut out, ",");
        }
        push_decimal(&mut out, ids[i]);
        proof {
            let pre = ids@.subrange(0, i + 1);
            assert(pre.drop_last() =~= ids@.subrange(0, i as int));
            if i == 0 {
                assert(id_list(ids@.subrange(0, 0)) =~= Seq::<char>::empty());
                assert(out@ =~= head + id_list(pre));
            } else {
                assert(out@ =~= head + id_list(pre));
            }
        }
        i = i + 1;
    }
    assert(ids@.subrange(0, ids@.len() as int) =~= ids@);
    out
}

/// What an answer to an ids request holds: the number of pages (0 when it
/// is not given) and the ids, or `None` when the ids are not a list of
/// non-negative integers.
pub open spec fn ids_answer(answer: JsonValue) -> Option<(u64, Seq<u64>)> {
    let data = member(answer, "data"@);
    let total = match member_as_u64(match data {
        Some(d) => member(d, "total_pages"@),
        None => None,
    }) {
        Some(t) => t,
        None => 0,
    };
    match data {
        Some(d) => match member(d, "ids"@) {
            Some(JsonValue::Array(items)) => if forall|i: int|
                0 <= i < items@.len() ==> (#[trigger] member_as_u64(Some(items@[i]))) is Some {
                Some((total, Seq::new(items@.len(), |i: int| member_as_u64(Some(items@[i])).unwrap())))
            } else {
                None
            },
            _ => None,
        },
        None => None,
    }
}

/// Reads the page count and the product ids from an answer to an ids request.
pub fn parse_ids_answer(answer: &JsonValue) -> (r: Result<(u64, Vec<u64>), Error>)
    ensures
        match ids_answer(*answer) {
            Some((total, ids)) => r is Ok && r.unwrap().0 == total && r.unwrap().1@ == ids,
            None => r == Err::<(u64, Vec<u64>), Error>(Error::MissingField),
        },
{
    let data = match answer.get("data") {
        Some(d) => d,
        None => return Err(Error::MissingField),
    };
    let total = match member_u64(data, "total_pages") {
        Some(t) => t,
        None => 0,
    };
    let items = match data.get("ids") {
        Some(JsonValue::Array(items)) => items,
        _ => return Err(Error::MissingField),
    };
    let mut ids: Vec<u64> = Vec::new();
    let mut i: usize = 0;
    assert(member(*data, "ids"@) == Some(JsonValue::Array(*items)));
    while i < items.len()
        invariant
            i <= items.len(),
            member(*answer, "data"@) == Some(*data),
            member(*data, "ids"@) == Some(JsonValue::Array(*items)),
            total == (match member_as_u64(member(*data, "total_pages"@)) {
                Some(t) => t,
                None => 0,
            }),
            ids@.len() == i,
            forall|k: int|
                0 <= k < i ==> member_as_u64(Some(items@[k])) == Some(#[trigger] ids@[k]),
        decreases items.len() - i,
    {
        match items[i].as_u64() {
            Some(v) => ids.push(v),
            None => {
                assert(member_as_u64(Some(items@[i as int])) is None);
                assert(member(*data, "ids"@) == Some(JsonValue::Array(*items)));
                assert(!(forall|k: int|
                    0 <= k < items@.len() ==> (#[trigger] member_as_u64(Some(items@[k]))) is Some));
                return Err(Error::MissingField);
            },
        }
        i = i + 1;
    }
    assert forall|k: int| 0 <= k < items@.len() implies (#[trigger] member_as_u64(
        Some(items@[k]),
    )) is Some by {
        assert(member_as_u64(Some(items@[k])) == Some(ids@[k]));
    }
    assert(member(*data, "ids"@) == Some(JsonValue::Array(*items)));
    assert(ids@ =~= Seq::new(items@.len(), |i: int| member_as_u64(Some(items@[i])).unwrap()));
    Ok((total, ids))
}

/// The composition of a product: its `docket` text, or the `value_title`
/// of the first object in its `docket` list, or empty.
pub open spec fn docket_text(item: JsonValue) -> Seq<char> {
    match member(item, "docket"@) {
        Some(JsonValue::Str(s)) => s@,
        Some(JsonValue::Array(list)) => if list@.len() > 0 && list@[0] is Object {
            match member_as_str(member(list@[0], "value_title"@)) {
                Some(s) => s,
                None => Seq::empty(),
            }
        } else {
            Seq::empty()
        },
        _ => Seq::empty(),
    }
}

/// Reads the composition of a product object.
pub fn docket_of(item: &JsonValue) -> (r: String)
    ensures
        r@ == docket_text(*item),
{
    match item.get("docket") {
        Some(JsonValue::Str(s)) => s.clone(),
        Some(JsonValue::Array(list)) => {
            if list.len() > 0 {
                match &list[0] {
                    JsonValue::Object(_) => match member_str(&list[0], "value_title") {
                        Some(s) => s,
                        None => String::new(),
                    },
                    _ => String::new(),
                }
            } else {
                String::new()
            }
        },
        _ => String::new(),
    }
}

/// Whether a product object carries an integer id, a text title, an integer
/// price and a text link.
pub open spec fn listing_readable(item: JsonValue) -> bool {
    &&& item is Object
    &&& member_as_i64(member(item, "id"@)) is Some
    &&& member_as_str(member(item, "title"@)) is Some
    &&& member_as_i64(member(item, "price"@)) is Some
    &&& member_as_str(member(item, "href"@)) is Some
}

/// `l` is the listing that the product object `item` describes; a missing
/// image is empty.
pub open spec fn listing_matches(item: JsonValue, l: RawListing) -> bool {
    &&& l.id == member_as_i64(member(item, "id"@)).unwrap()
    &&& l.description@ == member_as_str(member(item, "title"@)).unwrap()
    &&& l.price == member_as_i64(member(item, "price"@)).unwrap()
    &&& l.url@ == member_as_str(member(item, "href"@)).unwrap()
    &&& l.composition@ == docket_text(item)
    &&& l.image@ == (match member_as_str(member(item, "image_main"@)) {
        Some(s) => s,
        None => Seq::empty(),
    })
}

/// Reads one product object of a details answer.
pub fn parse_listing(item: &JsonValue) -> (r: Result<RawListing, Error>)
    ensures
        listing_readable(*item) ==> r is Ok && listing_matches(*item, r.unwrap()),
        !listing_readable(*item) ==> r == Err::<RawListing, Error>(Error::MissingField),
{
    match item {
        JsonValue::Object(_) => {},
        _ => return Err(Error::MissingField),
    }
    let id = match member_i64(item, "id") {
        Some(v) => v,
        None => return Err(Error::MissingField),
    };
    let description = match member_str(item, "title") {
        Some(v) => v,
        None => return Err(Error::MissingField),
    };
    let price = match member_i64(item, "price") {
        Some(v) => v,
        None => return Err(Error::MissingField),
    };
    let url = match member_str(item, "href") {
        Some(v) => v,
        None => return Err(Error::MissingField),
    };
    let composition = docket_of(item);
    let image = match member_str(item, "image_main") {
        Some(v) => v,
        None => String::new(),
    };
    Ok(RawListing { id, image, description, price, url, composition })
}

pub open spec fn all_readable(items: Seq<JsonValue>) -> bool {
    forall|k: int| 0 <= k < items.len() ==> #[trigger] listing_readable(items[k])
}

/// The list under `data` in an answer.
pub open spec fn data_items(answer: JsonValue) -> Option<Seq<JsonValue>> {
    match member(answer, "data"@) {
        Some(JsonValue::Array(items)) => Some(items@),
        _ => None,
    }
}

/// Reads all product objects of an answer to a details request; fails when
/// the answer holds no list or one of its objects cannot be read.
pub fn parse_details_answer(answer: &JsonValue) -> (r: Result<Vec<RawListing>, Error>)
    ensures
        match data_items(*answer) {
            Some(items) => if all_readable(items) {
                r is Ok && r.unwrap()@.len() == items.len() && forall|k: int|
                    0 <= k < items.len() ==> listing_matches(items[k], #[trigger] r.unwrap()@[k])
            } else {
                r == Err::<Vec<RawListing>, Error>(Error::MissingField)
            },
            None => r == Err::<Vec<RawListing>, Error>(Error::MissingField),
        },
{
    let items = match answer.get("data") {
        Some(JsonValue::Array(items)) => items,
        _ => return Err(Error::MissingField),
    };
    let mut out: Vec<RawListing> = Vec::new();
    let mut i: usize = 0;
    while i < items.len()
        invariant
            i <= items.len(),
            member(*answer, "data"@) == Some(JsonValue::Array(*items)),
            out@.len() == i,
            forall|k: int| 0 <= k < i ==> #[trigger] listing_readable(items@[k]),
            forall|k: int| 0 <= k < i ==> listing_matches(items@[k], #[trigger] out@[k]),
        decreases items.len() - i,
    {
        match parse_listing(&items[i]) {
            Ok(l) => out.push(l),
            Err(_) => {
                assert(data_items(*answer) == Some(items@));
                assert(!listing_readable(items@[i as int]));
                assert(!all_readable(items@));
                return Err(Error::MissingField);
            },
        }
        i = i + 1;
    }
    assert(all_readable(items@));
    Ok(out)
}

} // verus!
