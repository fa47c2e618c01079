use yande_popular::cycle::{merge_candidates, Scan, SCORE_THRESHOLD};
use yande_popular::delivery::{attachment_name, delivery_plan, post_url, provenance_message, Task};
use yande_popular::group::{GroupResolver, ImgData, Step};
use yande_popular::page::get_image_list;
use yande_popular::store::DB;
use std::collections::VecDeque;

fn group(score: u64, members: &[i64]) -> ImgData {
    let url: VecDeque<(i64, String)> =
        members.iter().map(|m| (*m, format!("https://files/{}.jpg", m))).collect();
    ImgData { score, url }
}

fn detail(id: i64, score: u64, notice: &str) -> String {
    format!(
        "<body>{}<span id=\"post-score-{}\">{}</span><a id=\"highres\" href=\"https://files/{}.jpg\">d</a></body>",
        notice, id, score, id
    )
}

fn resolve(id: i64, pages: &dyn Fn(i64) -> String) -> Option<(i64, ImgData)> {
    let (mut r, mut step) = GroupResolver::new(id);
    loop {
        match step {
            Step::Fetch(k) => step = r.on_page(&pages(k)),
            Step::Done(c, d) => return Some((c, d)),
            Step::Failed(_) => return None,
        }
    }
}

fn run_cycle(scan: &mut Scan, db: &mut DB, pages: &dyn Fn(i64) -> String, now: u64) -> Vec<i64> {
    let mut resolved = Vec::new();
    while let Some(id) = scan.next_candidate(db) {
        resolved.push(id);
        if let Some((c, d)) = resolve(id, pages) {
            scan.take_group(db, c, d, now);
        }
    }
    resolved
}

#[test]
fn merge_keeps_first_occurrence() {
    assert_eq!(merge_candidates(&vec![3, 1, 3], &vec![2, 1, 4]), vec![3, 1, 2, 4]);
    assert_eq!(merge_candidates(&vec![], &vec![]), Vec::<i64>::new());
}

#[test]
fn three_lone_posts_dispatched() {
    let mut db = DB::init();
    let listing = "<ul id=\"post-list-posts\"><li id=\"p101\"></li><li id=\"p102\"></li><li id=\"p103\"></li></ul>";
    let ids = get_image_list(listing).unwrap();
    let mut scan = Scan::new(&ids, &vec![]);
    let pages = |k: i64| detail(k, 60, "");
    let resolved = run_cycle(&mut scan, &mut db, &pages, 1_000);
    assert_eq!(resolved, vec![101, 102, 103]);
    assert_eq!(scan.dispatched.len(), 3);
    let mut notices = 0;
    let mut attachments = 0;
    for (id, data) in &scan.dispatched {
        for task in delivery_plan(*id, data) {
            match task {
                Task::Notice(_) => notices += 1,
                Task::Member(..) => attachments += 1,
            }
        }
    }
    assert_eq!((notices, attachments), (3, 3));
    for id in [101, 102, 103] {
        assert!(db.contains(id));
        assert_eq!(db.recorded_at(id), Some(1_000));
    }
}

#[test]
fn parent_group_dispatched_once() {
    let mut db = DB::init();
    let mut scan = Scan::new(&vec![101, 105], &vec![]);
    let pages = |k: i64| match k {
        101 => detail(101, 60, "<div class=\"status-notice\"><a href=\"/post/show/100\">parent post</a></div>"),
        100 => detail(100, 80, "<div class=\"status-notice\"><a href=\"/p\">child post</a> <a href=\"/post/show/105\">105</a></div>"),
        105 => detail(105, 40, ""),
        _ => String::new(),
    };
    let resolved = run_cycle(&mut scan, &mut db, &pages, 7);
    assert_eq!(resolved, vec![101]);
    assert_eq!(scan.dispatched.len(), 1);
    let (id, data) = &scan.dispatched[0];
    assert_eq!(*id, 100);
    assert_eq!(data.score, 80);
    let urls: Vec<(i64, String)> = data.url.iter().cloned().collect();
    assert_eq!(
        urls,
        vec![(100, "https://files/100.jpg".to_string()), (105, "https://files/105.jpg".to_string())]
    );
    assert!(db.contains(100) && db.contains(105));
    assert!(!db.contains(101));
}

#[test]
fn recorded_candidate_not_resolved() {
    let mut db = DB::init();
    db.insert(101, 1);
    let mut scan = Scan::new(&vec![101], &vec![]);
    let pages = |_k: i64| -> String { panic!("no page may be fetched") };
    let resolved = run_cycle(&mut scan, &mut db, &pages, 2);
    assert!(resolved.is_empty());
    assert!(scan.dispatched.is_empty());
}

#[test]
fn failed_member_stays_reserved() {
    let mut db = DB::init();
    let mut scan = Scan::new(&vec![1], &vec![]);
    assert_eq!(scan.next_candidate(&db), Some(1));
    assert!(scan.take_group(&mut db, 1, group(70, &[1, 2]), 50));
    let (id, data) = &scan.dispatched[0];
    let plan = delivery_plan(*id, data);
    assert_eq!(plan.len(), 3);
    assert!(matches!(&plan[0], Task::Notice(m) if *m == provenance_message(1)));
    assert!(matches!(&plan[1], Task::Member(1, u) if u == "https://files/1.jpg"));
    assert!(matches!(&plan[2], Task::Member(2, u) if u == "https://files/2.jpg"));
    assert!(db.contains(1) && db.contains(2));
    let mut next = Scan::new(&vec![1, 2], &vec![]);
    assert_eq!(next.next_candidate(&db), None);
}

#[test]
fn low_score_never_dispatched() {
    let mut db = DB::init();
    let mut scan = Scan::new(&vec![1], &vec![]);
    assert!(!scan.take_group(&mut db, 1, group(SCORE_THRESHOLD - 1, &[1]), 5));
    assert!(scan.dispatched.is_empty());
    assert!(!db.contains(1));
    assert_eq!(scan.seen, vec![1]);
    assert!(scan.take_group(&mut db, 2, group(SCORE_THRESHOLD, &[2]), 5));
}

#[test]
fn same_resolution_twice_dispatches_nothing_new() {
    let mut db = DB::init();
    let pages = |k: i64| detail(k, 60, "");
    let mut first = Scan::new(&vec![1, 2], &vec![3]);
    run_cycle(&mut first, &mut db, &pages, 100);
    assert_eq!(first.dispatched.len(), 3);
    let mut second = Scan::new(&vec![1, 2], &vec![3]);
    let resolved = run_cycle(&mut second, &mut db, &pages, 100);
    assert!(resolved.is_empty());
    assert!(second.dispatched.is_empty());
    let mut third = Scan::new(&vec![], &vec![]);
    assert!(!third.take_group(&mut db, 1, group(99, &[1, 2]), 100));
}

#[test]
fn partly_recorded_group_still_goes() {
    let mut db = DB::init();
    db.insert(1, 3);
    let mut scan = Scan::new(&vec![], &vec![]);
    assert!(scan.take_group(&mut db, 1, group(60, &[1, 2]), 9));
    assert_eq!(db.recorded_at(1), Some(9));
    assert_eq!(db.recorded_at(2), Some(9));
}

#[test]
fn member_seen_in_cycle_not_resolved_again() {
    let mut db = DB::init();
    let mut scan = Scan::new(&vec![1, 2, 3], &vec![]);
    assert_eq!(scan.next_candidate(&db), Some(1));
    scan.take_group(&mut db, 1, group(10, &[1, 2]), 0);
    assert_eq!(scan.next_candidate(&db), Some(3));
    assert_eq!(scan.next_candidate(&db), None);
}

#[test]
fn texts_for_delivery() {
    assert_eq!(post_url(1124159), "https://yande.re/post/show/1124159");
    assert_eq!(
        provenance_message(100),
        "来源：[https://yande.re/post/show/100](https://yande.re/post/show/100)"
    );
    assert_eq!(attachment_name(7, "https://files.yande.re/a/b%20c.png"), "7.png");
    assert_eq!(attachment_name(8, "noext"), "8.noext");
    assert_eq!(attachment_name(9, "https://x/y."), "9.");
}
