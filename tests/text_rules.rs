use laptop_selector::extract::{
    bullets_to_slashes, is_settled, link_page_number, max_page_of_links, normalize_catalog,
    normalize_name, parse_price, RetryPolicy,
};
use laptop_selector::model::{Cpu, Error};
use laptop_selector::scheduler::BenchmarkKind;
use laptop_selector::text::{
    keep_ascii_digits, parse_i32, parse_i64, parse_u32, parse_usize, push_decimal, replace_str,
    split_devices, split_str, trim_str,
};

#[test]
fn device_parsing_splits_cuts_and_trims() {
    let devices = split_devices("Intel Core i5-1135G7(4 cores) / 8GB RAM / NVIDIA GeForce MX350(2GB)");
    assert_eq!(devices, vec!["Intel Core i5-1135G7", "8GB RAM", "NVIDIA GeForce MX350"]);
}

#[test]
fn device_parsing_of_empty_text_gives_one_empty_candidate() {
    assert_eq!(split_devices(""), vec![String::new()]);
}

#[test]
fn device_parsing_keeps_empty_pieces() {
    assert_eq!(split_devices("a (x) / (y) b /"), vec!["a", "", ""]);
}

#[test]
fn price_extraction_keeps_digits() {
    assert_eq!(parse_price("23 999 ₴"), Ok(23999));
}

#[test]
fn price_without_digits_is_an_error() {
    assert_eq!(parse_price("ціна ₴"), Err(Error::ParseInt));
    assert_eq!(parse_price(""), Err(Error::ParseInt));
}

#[test]
fn price_too_large_is_an_error() {
    assert_eq!(parse_price("9 223 372 036 854 775 807"), Ok(i64::MAX));
    assert_eq!(parse_price("9 223 372 036 854 775 808"), Err(Error::ParseInt));
}

#[test]
fn trimming_removes_unicode_whitespace() {
    assert_eq!(trim_str("\u{a0} \tabc d\n\u{3000}"), "abc d");
    assert_eq!(trim_str("   "), "");
}

#[test]
fn digits_are_kept_in_order() {
    assert_eq!(keep_ascii_digits("a1b2 3٣"), "123");
}

#[test]
fn integer_parsing_follows_std() {
    assert_eq!(parse_u32("+42"), Some(42));
    assert_eq!(parse_u32("-0"), None);
    assert_eq!(parse_u32("4294967295"), Some(u32::MAX));
    assert_eq!(parse_u32("4294967296"), None);
    assert_eq!(parse_i32("-2147483648"), Some(i32::MIN));
    assert_eq!(parse_i32("2147483648"), None);
    assert_eq!(parse_i32("+"), None);
    assert_eq!(parse_i64("-9223372036854775808"), Some(i64::MIN));
    assert_eq!(parse_i64("12a"), None);
    assert_eq!(parse_usize("10"), Some(10));
    assert_eq!(parse_usize(""), None);
}

#[test]
fn decimal_formatting() {
    let mut s = String::from("n=");
    push_decimal(&mut s, 0);
    push_decimal(&mut s, 9515);
    assert_eq!(s, "n=09515");
}

#[test]
fn replacing_scans_left_to_right() {
    assert_eq!(replace_str("aaa", "aa", "b"), "ba");
    assert_eq!(replace_str("10,473", ",", ""), "10473");
    assert_eq!(bullets_to_slashes("Intel i5 • 8 GB • SSD"), "Intel i5 / 8 GB / SSD");
}

#[test]
fn splitting_like_std() {
    assert_eq!(split_str("a/b//", '/'), vec!["a", "b", "", ""]);
}

#[test]
fn settling_needs_two_equal_nonzero_counts() {
    assert!(!is_settled(0, 0));
    assert!(!is_settled(0, 5));
    assert!(!is_settled(4, 5));
    assert!(is_settled(5, 5));
}

#[test]
fn retry_policies_are_bounded() {
    let first = RetryPolicy::listing_tile(true);
    assert_eq!(first, RetryPolicy { attempts: 3, delay_ms: 1000 });
    assert!(first.should_retry(2, false));
    assert!(!first.should_retry(3, false));
    assert!(!first.should_retry(0, true));
    assert!(!RetryPolicy::listing_tile(false).should_retry(0, false));
    assert_eq!(RetryPolicy::detail_page(), RetryPolicy { attempts: 3, delay_ms: 5000 });
}

#[test]
fn pagination_link_page_numbers() {
    assert_eq!(link_page_number("https://rozetka.com.ua/ua/notebooks/c80004/page=7/"), Ok(Some(7)));
    assert_eq!(link_page_number("nopath"), Ok(None));
    assert_eq!(link_page_number("x/page=abc/"), Err(Error::ParseInt));
}

#[test]
fn highest_pagination_page() {
    let links = vec![
        String::from("/ua/notebooks/c80004/page=2/"),
        String::from("/ua/notebooks/c80004/page=67/"),
        String::from("single"),
        String::from("/ua/notebooks/c80004/page=3/"),
    ];
    assert_eq!(max_page_of_links(&links), Ok(67));
    assert_eq!(max_page_of_links(&vec![]), Ok(0));
    assert_eq!(max_page_of_links(&vec![String::from("a/b=x/")]), Err(Error::ParseInt));
}

#[test]
fn component_names_are_cut_and_trimmed() {
    assert_eq!(normalize_name("Intel Core i5-1135G7 @ 2.40GHz", '@'), "Intel Core i5-1135G7");
    assert_eq!(normalize_name(" GeForce MX350, 2GB", ','), "GeForce MX350");
    let catalog = vec![Cpu {
        id: 3,
        name: String::from("AMD Ryzen 5 5500U @ 2.1GHz"),
        url: String::from("u"),
        score: 13000,
    }];
    let normalized = normalize_catalog(catalog, BenchmarkKind::Cpu);
    assert_eq!(normalized[0].name, "AMD Ryzen 5 5500U");
    assert_eq!(normalized[0].id, 3);
    assert_eq!(normalized[0].score, 13000);
}
