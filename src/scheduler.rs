//! The crawl scheduler: tasks, the bounded pool of running tasks, and the
//! follow-up tasks that a finished page asks for.
use vstd::prelude::*;
use crate::model::{LaptopView, LaptopWithNoComposition, RawListing};
use crate::text::{decimal_string, push_decimal, push_str};

verus! {

/// How many browser sessions a crawl keeps open at most, by default.
pub const SESSION_LIMIT: usize = 10;

/// Which benchmark table a task reads.
#[derive(Debug, PartialEq, Eq, Structural, Clone, Copy)]
pub enum BenchmarkKind {
    Cpu,
    Gpu,
}

/// One unit of crawl work.
#[derive(Debug, Clone, PartialEq, Eq)]
pub enum CrawlTask {
    /// Read a benchmark table into the component catalog.
    FetchBenchmarkTable(BenchmarkKind),
    /// Read one listing page; only a task with `allow_pagination_spawn` may
    /// ask for the other pages.
    EnumerateListingPage { url: String, allow_pagination_spawn: bool },
    /// Read the composition of one laptop from its own page.
    ResolveDetail { url: String, laptop: LaptopWithNoComposition },
    /// Read one page of the listing data endpoint.
    FetchApiPage { page: u64 },
}

/// A task as a mathematical value.
pub enum TaskView {
    FetchBenchmarkTable(BenchmarkKind),
    EnumerateListingPage { url: Seq<char>, allow_pagination_spawn: bool },
    ResolveDetail { url: Seq<char>, id: i64, image: Seq<char>, description: Seq<char>, price: i64 },
    FetchApiPage { page: u64 },
}

impl View for CrawlTask {
    type V = TaskView;

    open spec fn view(&self) -> TaskView {
        match self {
            CrawlTask::FetchBenchmarkTable(k) => TaskView::FetchBenchmarkTable(*k),
            CrawlTask::EnumerateListingPage { url, allow_pagination_spawn } =>
                TaskView::EnumerateListingPage {
                url: url@,
                allow_pagination_spawn: *allow_pagination_spawn,
            },
            CrawlTask::ResolveDetail { url, laptop } => TaskView::ResolveDetail {
                url: url@,
                id: laptop.id,
                image: laptop.image@,
                description: laptop.description@,
                price: laptop.price,
            },
            CrawlTask::FetchApiPage { page } => TaskView::FetchApiPage { page: *page },
        }
    }
}

pub open spec fn tasks_view(v: Seq<CrawlTask>) -> Seq<TaskView> {
    v.map_values(|t: CrawlTask| t@)
}

/// Tasks waiting for a slot and the number of tasks holding one. At most
/// `limit` tasks hold a slot at any time.
pub struct Scheduler {
    pending: Vec<CrawlTask>,
    running: usize,
    limit: usize,
}

impl Scheduler {
    pub closed spec fn pending_view(&self) -> Seq<TaskView> {
        tasks_view(self.pending@)
    }

    pub closed spec fn running_count(&self) -> nat {
        self.running as nat
    }

    pub closed spec fn limit_value(&self) -> nat {
        self.limit as nat
    }

    pub closed spec fn wf(&self) -> bool {
        0 < self.limit && self.running <= self.limit
    }

    /// A scheduler with nothing to do that lets `limit` tasks run at once.
    pub fn new(limit: usize) -> (s: Self)
        requires
            limit > 0,
        ensures
            s.wf(),
            s.pending_view() == Seq::<TaskView>::empty(),
            s.running_count() == 0,
            s.limit_value() == limit,
    {
        let s = Scheduler { pending: Vec::new(), running: 0, limit };
        assert(s.pending_view() =~= Seq::<TaskView>::empty());
        s
    }

    /// Queues a task.
    pub fn submit(&mut self, task: CrawlTask)
        requires
            old(self).wf(),
        ensures
            final(self).wf(),
            final(self).pending_view() == old(self).pending_view().push(task@),
            final(self).running_count() == old(self).running_count(),
            final(self).limit_value() == old(self).limit_value(),
    {
        self.pending.push(task);
        assert(self.pending_view() =~= old(self).pending_view().push(task@));
    }

    /// Queues several tasks, in order.
    pub fn submit_all(&mut self, tasks: Vec<CrawlTask>)
        requires
            old(self).wf(),
        ensures
            final(self).wf(),
            final(self).pending_view() == old(self).pending_view() + tasks_view(tasks@),
            final(self).running_count() == old(self).running_count(),
            final(self).limit_value() == old(self).limit_value(),
    {
        let mut tasks = tasks;
        let ghost all = tasks_view(tasks@);
        self.pending.append(&mut tasks);
        assert(self.pending_view() =~= old(self).pending_view() + all);
    }

    /// Hands out the oldest waiting task when a slot is free; the task then
    /// holds a slot until `task_finished`.
    pub fn next_task(&mut self) -> (r: Option<CrawlTask>)
        requires
            old(self).wf(),
        ensures
            final(self).wf(),
            final(self).limit_value() == old(self).limit_value(),
            old(self).running_count() < old(self).limit_value() && old(self).pending_view().len()
                > 0 ==> {
                &&& r is Some
                &&& r.unwrap()@ == old(self).pending_view()[0]
                &&& final(self).pending_view() == old(self).pending_view().drop_first()
                &&& final(self).running_count() == old(self).running_count() + 1
            },
            !(old(self).running_count() < old(self).limit_value() && old(self).pending_view().len()
                > 0) ==> {
                &&& r is None
                &&& final(self).pending_view() == old(self).pending_view()
                &&& final(self).running_count() == old(self).running_count()
            },
    {
        if self.running < self.limit && self.pending.len() > 0 {
            let t = self.pending.remove(0);
            self.running = self.running + 1;
            assert(self.pending_view() =~= old(self).pending_view().drop_first());
            Some(t)
        } else {
            None
        }
    }

    /// A running task is done with its own page: its slot is freed before any
    /// of the tasks it asked for runs, and those are queued.
    pub fn task_finished(&mut self, spawned: Vec<CrawlTask>)
        requires
            old(self).wf(),
            old(self).running_count() > 0,
        ensures
            final(self).wf(),
            final(self).pending_view() == old(self).pending_view() + tasks_view(spawned@),
            final(self).running_count() == old(self).running_count() - 1,
            final(self).limit_value() == old(self).limit_value(),
    {
        self.running = self.running - 1;
        self.submit_all(spawned);
    }

    /// Whether the whole tree of tasks has completed.
    pub fn is_idle(&self) -> (r: bool)
        ensures
            r == (self.running_count() == 0 && self.pending_view().len() == 0),
    {
        self.running == 0 && self.pending.len() == 0
    }

    /// The number of tasks holding a slot.
    pub fn running(&self) -> (r: usize)
        ensures
            r == self.running_count(),
    {
        self.running
    }
}

/// However the scheduler is driven, no more than `limit` tasks hold a slot.
pub proof fn lemma_concurrency_bound(s: Scheduler)
    requires
        s.wf(),
    ensures
        s.running_count() <= s.limit_value(),
{
}

/// Whether a listing has to be completed from its own page: its composition
/// is empty and no enriched row with its id is stored.
pub open spec fn needs_detail(l: RawListing, existing: Seq<LaptopView>) -> bool {
    l.composition@.len() == 0 && !(exists|i: int|
        0 <= i < existing.len() && #[trigger] existing[i].id == l.id && existing[i].is_enriched())
}

pub open spec fn detail_task(l: RawListing) -> TaskView {
    TaskView::ResolveDetail {
        url: l.url@,
        id: l.id,
        image: l.image@,
        description: l.description@,
        price: l.price,
    }
}

/// One detail task for each listing that needs one, in listing order.
pub open spec fn detail_tasks(listings: Seq<RawListing>, existing: Seq<LaptopView>) -> Seq<TaskView>
    decreases listings.len(),
{
    if listings.len() == 0 {
        Seq::empty()
    } else {
        let p = detail_tasks(listings.drop_last(), existing);
        if needs_detail(listings.last(), existing) {
            p.push(detail_task(listings.last()))
        } else {
            p
        }
    }
}

/// The address of page `page` of the listing that starts at `base`.
pub open spec fn page_url(base: Seq<char>, page: nat) -> Seq<char> {
    base + "page="@ + decimal_string(page) + "/"@
}

/// The number of further pages when the last page is `max_page`.
pub open spec fn further_pages(max_page: int) -> nat {
    if max_page > 1 {
        (max_page - 1) as nat
    } else {
        0
    }
}

/// Listing tasks for pages 2 to `max_page`, which may not paginate further.
pub open spec fn listing_page_tasks(base: Seq<char>, max_page: int) -> Seq<TaskView> {
    Seq::new(
        further_pages(max_page),
        |k: int|
            TaskView::EnumerateListingPage {
                url: page_url(base, (k + 2) as nat),
                allow_pagination_spawn: false,
            },
    )
}

/// Endpoint tasks for pages 2 to `max_page`.
pub open spec fn api_page_tasks(max_page: int) -> Seq<TaskView> {
    Seq::new(further_pages(max_page), |k: int| TaskView::FetchApiPage { page: (k + 2) as u64 })
}

/// The tasks that a finished task asks for, given the listings it read, the
/// rows stored when the crawl started and the last page number it found.
pub open spec fn followups(
    task: TaskView,
    listings: Seq<RawListing>,
    existing: Seq<LaptopView>,
    max_page: int,
) -> Seq<TaskView> {
    match task {
        TaskView::EnumerateListingPage { url, allow_pagination_spawn } => detail_tasks(
            listings,
            existing,
        ) + if allow_pagination_spawn {
            listing_page_tasks(url, max_page)
        } else {
            Seq::empty()
        },
        TaskView::FetchApiPage { page } => detail_tasks(listings, existing) + if page == 1 {
            api_page_tasks(max_page)
        } else {
            Seq::empty()
        },
        _ => Seq::empty(),
    }
}

/// Whether a listing needs a detail task.
pub fn listing_needs_detail(l: &RawListing, existing: &Vec<LaptopView>) -> (r: bool)
    ensures
        r == needs_detail(*l, existing@),
{
    if !l.composition.as_str().is_empty() {
        return false;
    }
    let mut i: usize = 0;
    while i < existing.len()
        invariant
            i <= existing.len(),
            l.composition@.len() == 0,
            forall|k: int|
                0 <= k < i ==> !(#[trigger] existing@[k].id == l.id && existing@[k].is_enriched()),
        decreases existing.len() - i,
    {
        if existing[i].id == l.id && !existing[i].composition.as_str().is_empty() {
            assert(existing@[i as int].id == l.id && existing@[i as int].is_enriched());
            return false;
        }
        i = i + 1;
    }
    true
}

/// The address of a further listing page.
pub fn page_url_of(base: &str, page: u64) -> (r: String)
    ensures
        r@ == page_url(base@, page as nat),
{
    let mut out = String::from_str(base);
    push_str(&mut out, "page=");
    push_decimal(&mut out, page);
    push_str(&mut out, "/");
    out
}

fn detail_task_of(l: &RawListing) -> (r: CrawlTask)
    ensures
        r@ == detail_task(*l),
{
    CrawlTask::ResolveDetail {
        url: l.url.clone(),
        laptop: LaptopWithNoComposition {
            id: l.id,
            image: l.image.clone(),
            description: l.description.clone(),
            price: l.price,
        },
    }
}

fn plan_detail_tasks(listings: &Vec<RawListing>, existing: &Vec<LaptopView>, out: &mut Vec<CrawlTask>)
    ensures
        tasks_view(final(out)@) == tasks_view(old(out)@) + detail_tasks(listings@, existing@),
{
    let ghost start = tasks_view(out@);
    let mut i: usize = 0;
    while i < listings.len()
        invariant
            i <= listings.len(),
            tasks_view(out@) == start + detail_tasks(listings@.subrange(0, i as int), existing@),
        decreases listings.len() - i,
    {
        assert(listings@.subrange(0, i + 1).drop_last() =~= listings@.subrange(0, i as int));
        assert(listings@.subrange(0, i + 1).last() == listings@[i as int]);
        let ghost before = out@;
        if listing_needs_detail(&listings[i], existing) {
            let t = detail_task_of(&listings[i]);
            out.push(t);
            assert(tasks_view(out@) =~= tasks_view(before).push(t@));
        }
        i = i + 1;
        assert(tasks_view(out@) =~= start + detail_tasks(listings@.subrange(0, i as int), existing@));
    }
    assert(listings@.subrange(0, listings@.len() as int) =~= listings@);
}

/// Decides which tasks a finished task asks for: a detail task for each
/// listing that needs one, then, on the first page of a paginating listing or
/// of the data endpoint, one task for each further page up to `max_page`.
pub fn plan_followups(
    task: &CrawlTask,
    listings: &Vec<RawListing>,
    existing: &Vec<LaptopView>,
    max_page: i64,
) -> (r: Vec<CrawlTask>)
    ensures
        tasks_view(r@) == followups(task@, listings@, existing@, max_page as int),
{
    let mut out: Vec<CrawlTask> = Vec::new();
    match task {
        CrawlTask::EnumerateListingPage { url, allow_pagination_spawn } => {
            plan_detail_tasks(listings, existing, &mut out);
            let ghost details = tasks_view(out@);
            if *allow_pagination_spawn && max_page > 1 {
                let ghost pages = listing_page_tasks(url@, max_page as int);
                let mut p: i64 = 1;
                while p < max_page
                    invariant
                        1 <= p <= max_page,
                        max_page > 1,
                        pages == listing_page_tasks(url@, max_page as int),
                        tasks_view(out@) == details + pages.subrange(0, p - 1),
                    decreases max_page - p,
                {
                    p = p + 1;
                    let t = CrawlTask::EnumerateListingPage {
                        url: page_url_of(url.as_str(), p as u64),
                        allow_pagination_spawn: false,
                    };
                    assert(t@ == pages[p - 2]);
                    let ghost before = out@;
                    out.push(t);
                    assert(tasks_view(out@) =~= tasks_view(before).push(t@));
                    assert(pages.subrange(0, p - 1) =~= pages.subrange(0, p - 2).push(pages[p - 2]));
                }
                assert(listing_page_tasks(url@, max_page as int).subrange(0, max_page - 1) =~= listing_page_tasks(url@, max_page as int));
            } else {
                assert(tasks_view(out@) =~= followups(task@, listings@, existing@, max_page as int));
            }
        },
        CrawlTask::FetchApiPage { page } => {
            plan_detail_tasks(listings, existing, &mut out);
            let ghost details = tasks_view(out@);
            if *page == 1 && max_page > 1 {
                let ghost pages = api_page_tasks(max_page as int);
                let mut p: i64 = 1;
                while p < max_page
                    invariant
                        1 <= p <= max_page,
                        max_page > 1,
                        pages == api_page_tasks(max_page as int),
                        tasks_view(out@) == details + pages.subrange(0, p - 1),
                    decreases max_page - p,
                {
                    p = p + 1;
                    let t = CrawlTask::FetchApiPage { page: p as u64 };
                    assert(t@ == pages[p - 2]);
                    let ghost before = out@;
                    out.push(t);
                    assert(tasks_view(out@) =~= tasks_view(before).push(t@));
                    assert(pages.subrange(0, p - 1) =~= pages.subrange(0, p - 2).push(pages[p - 2]));
                }
                assert(api_page_tasks(max_page as int).subrange(0, max_page - 1) =~= api_page_tasks(max_page as int));
            } else {
                assert(tasks_view(out@) =~= followups(task@, listings@, existing@, max_page as int));
            }
        },
        _ => {
            assert(tasks_view(out@) =~= Seq::<TaskView>::empty());
        },
    }
    out
}

proof fn lemma_detail_tasks_shape(listings: Seq<RawListing>, existing: Seq<LaptopView>)
    ensures
        forall|k: int|
            0 <= k < detail_tasks(listings, existing).len() ==> exists|i: int|
                0 <= i < listings.len() && needs_detail(listings[i], existing) && #[trigger] detail_tasks(listings, existing)[k] == detail_task(listings[i]),
    decreases listings.len(),
{
    if listings.len() > 0 {
        let init = listings.drop_last();
        lemma_detail_tasks_shape(init, existing);
        let d = detail_tasks(listings, existing);
        assert forall|k: int| 0 <= k < d.len() implies exists|i: int|
                0 <= i < listings.len() && needs_detail(listings[i], existing) && #[trigger] d[k] == detail_task(listings[i]) by {
            if k < detail_tasks(init, existing).len() {
                let i = choose|i: int| 0 <= i < init.len() && needs_detail(init[i], existing) && detail_tasks(init, existing)[k] == detail_task(init[i]);
                assert(listings[i] == init[i]);
            } else {
                assert(d[k] == detail_task(listings[listings.len() - 1]));
            }
        }
    }
}

/// A task that may not paginate never asks for another listing page, and the
/// listing pages that a paginating task asks for may not paginate either;
/// likewise only the first endpoint page asks for other endpoint pages, and
/// those are never the first. So pagination stops after one level.
pub proof fn lemma_pagination_terminates(
    task: TaskView,
    listings: Seq<RawListing>,
    existing: Seq<LaptopView>,
    max_page: int,
)
    requires
        max_page <= i64::MAX,
    ensures
        task is EnumerateListingPage && !task->EnumerateListingPage_allow_pagination_spawn ==> forall|k: int|
            0 <= k < followups(task, listings, existing, max_page).len()
                ==> !(#[trigger] followups(task, listings, existing, max_page)[k] is EnumerateListingPage),
        forall|k: int|
            0 <= k < followups(task, listings, existing, max_page).len() && (
            #[trigger] followups(task, listings, existing, max_page)[k]) is EnumerateListingPage
                ==> !followups(task, listings, existing, max_page)[k]->EnumerateListingPage_allow_pagination_spawn,
        task is FetchApiPage && task->FetchApiPage_page != 1 ==> forall|k: int|
            0 <= k < followups(task, listings, existing, max_page).len()
                ==> !(#[trigger] followups(task, listings, existing, max_page)[k] is FetchApiPage),
        forall|k: int|
            0 <= k < followups(task, listings, existing, max_page).len() && (
            #[trigger] followups(task, listings, existing, max_page)[k]) is FetchApiPage
                ==> followups(task, listings, existing, max_page)[k]->FetchApiPage_page != 1,
{
    lemma_detail_tasks_shape(listings, existing);
    let f = followups(task, listings, existing, max_page);
    let d = detail_tasks(listings, existing);
    assert forall|k: int| 0 <= k < d.len() implies (#[trigger] d[k]) is ResolveDetail by {
        let i = choose|i: int| 0 <= i < listings.len() && needs_detail(listings[i], existing) && d[k] == detail_task(listings[i]);
    }
    assert forall|k: int| 0 <= k < api_page_tasks(max_page).len() implies (#[trigger] api_page_tasks(max_page)[k])->FetchApiPage_page != 1 by {
        assert(0 <= k + 2 <= i64::MAX);
    }
}

/// No detail task is asked for a listing whose id already has an enriched
/// stored row.
pub proof fn lemma_skip_enriched(
    task: TaskView,
    listings: Seq<RawListing>,
    existing: Seq<LaptopView>,
    max_page: int,
    e: int,
)
    requires
        0 <= e < existing.len(),
        existing[e].is_enriched(),
    ensures
        forall|k: int|
            0 <= k < followups(task, listings, existing, max_page).len() && (
            #[trigger] followups(task, listings, existing, max_page)[k]) is ResolveDetail
                ==> followups(task, listings, existing, max_page)[k]->ResolveDetail_id != existing[e].id,
{
    lemma_detail_tasks_shape(listings, existing);
    let f = followups(task, listings, existing, max_page);
    let d = detail_tasks(listings, existing);
    assert forall|k: int| 0 <= k < d.len() implies (#[trigger] d[k])->ResolveDetail_id != existing[e].id by {
        let i = choose|i: int| 0 <= i < listings.len() && needs_detail(listings[i], existing) && d[k] == detail_task(listings[i]);
        if listings[i].id == existing[e].id {
            assert(existing[e].id == listings[i].id && existing[e].is_enriched());
        }
    }
}

} // verus!
