use laptop_selector::catalog::merge_record;
use laptop_selector::model::CatalogRecord;

fn record(id: i64, composition: &str, price: i64) -> CatalogRecord {
    CatalogRecord {
        id,
        image: format!("img{price}"),
        description: format!("laptop {price}"),
        composition: String::from(composition),
        url: String::from("u"),
        price,
        cpu_id: price % 7,
        gpu_id: 0,
    }
}

#[test]
fn enriched_row_is_not_regressed() {
    let existing = record(5, "Intel i5 / RTX 3050", 100);
    let incoming = record(5, "", 200);
    assert_eq!(merge_record(Some(existing.clone()), incoming), existing);
}

#[test]
fn new_rows_are_inserted_as_given() {
    assert_eq!(merge_record(None, record(1, "", 3)), record(1, "", 3));
    assert_eq!(merge_record(None, record(1, "x", 3)), record(1, "x", 3));
}

#[test]
fn plain_row_is_overwritten() {
    assert_eq!(merge_record(Some(record(2, "", 1)), record(2, "", 9)), record(2, "", 9));
    assert_eq!(merge_record(Some(record(2, "", 1)), record(2, "c", 9)), record(2, "c", 9));
}

#[test]
fn latest_enriched_row_wins() {
    assert_eq!(merge_record(Some(record(2, "a", 1)), record(2, "b", 9)), record(2, "b", 9));
}

#[test]
fn rerun_leaves_the_same_rows() {
    let incoming = vec![record(1, "", 10), record(2, "cpu / gpu", 20), record(1, "x", 30), record(1, "", 40)];
    let mut store: Vec<CatalogRecord> = vec![record(2, "", 5)];
    for _ in 0..2 {
        for r in &incoming {
            let existing = store.iter().position(|s| s.id == r.id);
            match existing {
                Some(i) => {
                    let old = store[i].clone();
                    store[i] = merge_record(Some(old), r.clone());
                }
                None => store.push(merge_record(None, r.clone())),
            }
        }
        assert_eq!(store, vec![record(2, "cpu / gpu", 20), record(1, "x", 30)]);
    }
}
