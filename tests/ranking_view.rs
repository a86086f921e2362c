use laptop_selector::model::LaptopView;
use laptop_selector::ranking::{
    max_scores, priorities_from_pairs, priorities_from_query, rank_key, ranking_order,
    total_score, LaptopPriorities,
};
use laptop_selector::settings::WebDriverSettings;

#[test]
fn default_query_gives_priorities() {
    let p = priorities_from_query("cpu=100&gpu=0&quantity=10");
    assert_eq!(p, LaptopPriorities { cpu: 100, gpu: 0, quantity: 10 });
}

#[test]
fn bad_query_gives_zero_priorities() {
    assert_eq!(priorities_from_query("cpu=1&gpu=2"), LaptopPriorities::default());
    assert_eq!(priorities_from_query("cpu=x&gpu=2&quantity=5"), LaptopPriorities::default());
    assert_eq!(priorities_from_query("cpu=1&cpu=1&gpu=2&quantity=5"), LaptopPriorities::default());
    let pairs = vec![
        (String::from("quantity"), String::from("+5")),
        (String::from("gpu"), String::from("-3")),
        (String::from("cpu"), String::from("7")),
        (String::from("other"), String::from("z")),
    ];
    assert_eq!(priorities_from_pairs(&pairs), LaptopPriorities { cpu: 7, gpu: -3, quantity: 5 });
}

#[test]
fn weighted_score_formula() {
    let p = LaptopPriorities { cpu: 100, gpu: 50, quantity: 5 };
    assert_eq!(total_score(10000, 2000, &p, 30000, 4000), 33 + 25);
    let n = LaptopPriorities { cpu: -7, gpu: 0, quantity: 0 };
    assert_eq!(total_score(10, 0, &n, 3, 1), -23);
}

#[test]
fn price_key_formula() {
    assert_eq!(rank_key(30000, 0), 30000000);
    assert_eq!(rank_key(25000, 99), 250000);
    assert_eq!(rank_key(-7, 1), -3500);
}

#[test]
fn stable_order_by_key() {
    assert_eq!(ranking_order(&vec![5, 1, 5, 0, 1]), vec![3, 1, 4, 0, 2]);
    assert_eq!(ranking_order(&vec![]), Vec::<usize>::new());
}

#[test]
fn highest_scores() {
    let mk = |c: i64, g: i64| LaptopView {
        id: 0,
        image: String::new(),
        description: String::new(),
        composition: String::new(),
        url: String::new(),
        price: 0,
        cpu_id: 0,
        gpu_id: 0,
        cpu_score: c,
        gpu_score: g,
        cpu_name: String::new(),
        gpu_name: String::new(),
    };
    assert_eq!(max_scores(&vec![mk(3, 9), mk(8, 1)]), (8, 9));
}

#[test]
fn webdriver_address() {
    assert_eq!(WebDriverSettings::default().connection_url(), "http://127.0.0.1:9515");
    let s = WebDriverSettings { host: String::from("10.0.0.2"), port: 4444 };
    assert_eq!(s.connection_url(), "http://10.0.0.2:4444");
}
