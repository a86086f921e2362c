use laptop_selector::benchmark::{benchmark_row, is_table_row, sentinel_row};
use laptop_selector::form::lookup_key;
use laptop_selector::model::Error;
use laptop_selector::scheduler::BenchmarkKind;

#[test]
fn cpu_row() {
    let r = benchmark_row(
        BenchmarkKind::Cpu,
        "cpu_lookup.php?cpu=Intel+Core+i5-1135G7+%40+2.40GHz&id=3830",
        String::from("Intel Core i5-1135G7 @ 2.40GHz"),
        "10,473",
    )
    .unwrap();
    assert_eq!(r.id, "3830");
    assert_eq!(r.name, "Intel Core i5-1135G7 @ 2.40GHz");
    assert_eq!(
        r.url,
        "https://www.cpubenchmark.net/cpu.php?cpu=Intel+Core+i5-1135G7+%40+2.40GHz&id=3830"
    );
    assert_eq!(r.score, 10473);
}

#[test]
fn gpu_row() {
    let r = benchmark_row(
        BenchmarkKind::Gpu,
        "video_lookup.php?gpu=GeForce+MX350&id=4207",
        String::from("GeForce MX350"),
        "n/a",
    )
    .unwrap();
    assert_eq!(r.id, "4207");
    assert_eq!(r.url, "https://www.videocardbenchmark.net/gpu.php?gpu=GeForce+MX350&id=4207");
    assert_eq!(r.score, 0);
}

#[test]
fn row_without_id_fails() {
    let r = benchmark_row(BenchmarkKind::Cpu, "cpu_lookup.php?cpu=x", String::new(), "1");
    assert_eq!(r, Err(Error::MissingField));
}

#[test]
fn last_id_counts() {
    let pairs = vec![
        (String::from("id"), String::from("1")),
        (String::from("x"), String::from("2")),
        (String::from("id"), String::from("3")),
    ];
    assert_eq!(lookup_key(&pairs, "id"), Some(String::from("3")));
    assert_eq!(lookup_key(&pairs, "y"), None);
}

#[test]
fn header_rows_are_skipped() {
    assert!(!is_table_row(1));
    assert!(is_table_row(2));
}

#[test]
fn sentinel_rows() {
    let c = sentinel_row(BenchmarkKind::Cpu);
    assert_eq!((c.id.as_str(), c.name.as_str(), c.url.as_str(), c.score), ("0", "Unknown cpu", "", 0));
    assert_eq!(sentinel_row(BenchmarkKind::Gpu).name, "Unknown gpu");
}
