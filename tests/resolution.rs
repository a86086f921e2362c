use laptop_selector::extract::{record_of_detail, record_of_listing};
use laptop_selector::model::{Cpu, LaptopWithNoComposition, RawListing};
use laptop_selector::resolver::{best_match_from_scores, get_best_match, resolve};
use laptop_selector::text::split_devices;

fn component(id: i64, name: &str, score: i64) -> Cpu {
    Cpu { id, name: String::from(name), url: String::new(), score }
}

fn cpus() -> Vec<Cpu> {
    vec![
        component(0, "Unknown cpu", 0),
        component(3830, "Intel Core i5-1135G7", 10473),
        component(4141, "AMD Ryzen 5 5500U", 13000),
    ]
}

fn gpus() -> Vec<Cpu> {
    vec![component(0, "Unknown gpu", 0), component(4207, "GeForce MX350", 1900)]
}

#[test]
fn sentinel_without_candidates() {
    assert_eq!(get_best_match(&vec![], &cpus()), 0);
}

#[test]
fn sentinel_when_nothing_matches() {
    let devices = vec![String::from("Xyzzy Unknown Chip")];
    assert_eq!(get_best_match(&devices, &cpus()), 0);
    assert_eq!(resolve(&devices, &cpus()).id, 0);
}

#[test]
fn best_candidate_wins() {
    let devices = split_devices("Intel Core i5-1135G7(4 cores) / 8GB RAM / GeForce MX350(2GB)");
    assert_eq!(get_best_match(&devices, &cpus()), 1);
    assert_eq!(get_best_match(&devices, &gpus()), 1);
}

#[test]
fn equal_names_resolve_to_the_first() {
    let catalog = vec![
        component(0, "Unknown cpu", 0),
        component(5, "Ryzen 7", 1),
        component(6, "Ryzen 7", 2),
    ];
    assert_eq!(get_best_match(&vec![String::from("Ryzen 7")], &catalog), 1);
}

#[test]
fn score_table_selection() {
    assert_eq!(best_match_from_scores(&vec![]), 0);
    assert_eq!(best_match_from_scores(&vec![vec![None, Some(0)], vec![Some(-4)]]), 0);
    assert_eq!(
        best_match_from_scores(&vec![vec![Some(3)], vec![None, Some(9)], vec![Some(9)], vec![Some(2)]]),
        1
    );
    assert_eq!(best_match_from_scores(&vec![vec![], vec![Some(1)]]), 1);
}

#[test]
fn listing_becomes_a_resolved_record() {
    let listing = RawListing {
        id: 11,
        image: String::from("img"),
        description: String::from("Laptop"),
        price: 23999,
        url: String::from("https://example/11/"),
        composition: String::from("AMD Ryzen 5 5500U(6) / GeForce MX350"),
    };
    let r = record_of_listing(listing, &cpus(), &gpus());
    assert_eq!(r.id, 11);
    assert_eq!(r.composition, "AMD Ryzen 5 5500U(6) / GeForce MX350");
    assert_eq!(r.cpu_id, 4141);
    assert_eq!(r.gpu_id, 4207);
}

#[test]
fn detail_record_takes_the_page_composition() {
    let laptop = LaptopWithNoComposition {
        id: 12,
        image: String::from("i"),
        description: String::from("d"),
        price: 5,
    };
    let r = record_of_detail(laptop, String::from("u"), String::from("Xyzzy"), &cpus(), &gpus());
    assert_eq!((r.id, r.price, r.cpu_id, r.gpu_id), (12, 5, 0, 0));
    assert_eq!(r.url, "u");
    assert_eq!(r.composition, "Xyzzy");
}
