use laptop_selector::model::{LaptopView, LaptopWithNoComposition, RawListing};
use laptop_selector::scheduler::{
    listing_needs_detail, page_url_of, plan_followups, BenchmarkKind, CrawlTask, Scheduler,
    SESSION_LIMIT,
};

fn listing(id: i64, composition: &str) -> RawListing {
    RawListing {
        id,
        image: format!("img{id}"),
        description: format!("laptop {id}"),
        price: 1000 + id,
        url: format!("https://shop/{id}/"),
        composition: String::from(composition),
    }
}

fn stored(id: i64, composition: &str) -> LaptopView {
    LaptopView {
        id,
        image: String::new(),
        description: String::new(),
        composition: String::from(composition),
        url: String::new(),
        price: 0,
        cpu_id: 0,
        gpu_id: 0,
        cpu_score: 0,
        gpu_score: 0,
        cpu_name: String::new(),
        gpu_name: String::new(),
    }
}

fn page_task(allow: bool) -> CrawlTask {
    CrawlTask::EnumerateListingPage {
        url: String::from("https://shop/notebooks/"),
        allow_pagination_spawn: allow,
    }
}

fn detail_for(l: &RawListing) -> CrawlTask {
    CrawlTask::ResolveDetail {
        url: l.url.clone(),
        laptop: LaptopWithNoComposition {
            id: l.id,
            image: l.image.clone(),
            description: l.description.clone(),
            price: l.price,
        },
    }
}

#[test]
fn at_most_two_sessions_under_a_limit_of_two() {
    let mut s = Scheduler::new(2);
    for i in 0..10u64 {
        s.submit(CrawlTask::FetchApiPage { page: i + 1 });
    }
    let mut open = 0usize;
    let mut peak = 0usize;
    let mut done = 0usize;
    while !s.is_idle() {
        while let Some(_task) = s.next_task() {
            open += 1;
            peak = peak.max(open);
            assert!(s.running() <= 2);
        }
        s.task_finished(vec![]);
        open -= 1;
        done += 1;
    }
    assert_eq!(peak, 2);
    assert_eq!(done, 10);
}

#[test]
fn tasks_are_handed_out_in_order() {
    let mut s = Scheduler::new(SESSION_LIMIT);
    s.submit(CrawlTask::FetchBenchmarkTable(BenchmarkKind::Cpu));
    s.submit(CrawlTask::FetchBenchmarkTable(BenchmarkKind::Gpu));
    assert_eq!(s.next_task(), Some(CrawlTask::FetchBenchmarkTable(BenchmarkKind::Cpu)));
    assert_eq!(s.next_task(), Some(CrawlTask::FetchBenchmarkTable(BenchmarkKind::Gpu)));
    assert_eq!(s.next_task(), None);
    assert!(!s.is_idle());
    s.task_finished(vec![CrawlTask::FetchApiPage { page: 2 }]);
    assert_eq!(s.running(), 1);
    assert_eq!(s.next_task(), Some(CrawlTask::FetchApiPage { page: 2 }));
    s.task_finished(vec![]);
    s.task_finished(vec![]);
    assert!(s.is_idle());
}

#[test]
fn child_pages_never_paginate() {
    let listings = vec![listing(1, "cpu / gpu")];
    let r = plan_followups(&page_task(false), &listings, &vec![], 5);
    assert!(r.is_empty());
}

#[test]
fn root_page_spawns_further_pages() {
    let r = plan_followups(&page_task(true), &vec![], &vec![], 3);
    assert_eq!(
        r,
        vec![
            CrawlTask::EnumerateListingPage {
                url: String::from("https://shop/notebooks/page=2/"),
                allow_pagination_spawn: false,
            },
            CrawlTask::EnumerateListingPage {
                url: String::from("https://shop/notebooks/page=3/"),
                allow_pagination_spawn: false,
            },
        ]
    );
    assert!(plan_followups(&page_task(true), &vec![], &vec![], 1).is_empty());
}

#[test]
fn api_root_spawns_further_api_pages() {
    let r = plan_followups(&CrawlTask::FetchApiPage { page: 1 }, &vec![], &vec![], 3);
    assert_eq!(r, vec![CrawlTask::FetchApiPage { page: 2 }, CrawlTask::FetchApiPage { page: 3 }]);
    assert!(plan_followups(&CrawlTask::FetchApiPage { page: 2 }, &vec![], &vec![], 3).is_empty());
}

#[test]
fn enriched_rows_are_not_fetched_again() {
    let listings = vec![listing(7, ""), listing(8, ""), listing(9, "cpu")];
    let existing = vec![stored(7, "Intel i5 / RTX 3050"), stored(8, "")];
    assert!(!listing_needs_detail(&listings[0], &existing));
    assert!(listing_needs_detail(&listings[1], &existing));
    assert!(!listing_needs_detail(&listings[2], &existing));
    let r = plan_followups(&page_task(false), &listings, &existing, 0);
    assert_eq!(r, vec![detail_for(&listings[1])]);
}

#[test]
fn detail_tasks_come_before_pages() {
    let listings = vec![listing(3, "")];
    let r = plan_followups(&page_task(true), &listings, &vec![], 2);
    assert_eq!(r.len(), 2);
    assert_eq!(r[0], detail_for(&listings[0]));
    assert_eq!(page_url_of("base/", 2), "base/page=2/");
}

#[test]
fn other_tasks_spawn_nothing() {
    let listings = vec![listing(3, "")];
    let t = CrawlTask::FetchBenchmarkTable(BenchmarkKind::Gpu);
    assert!(plan_followups(&t, &listings, &vec![], 9).is_empty());
}
