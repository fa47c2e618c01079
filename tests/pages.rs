use yande_popular::group::{GroupResolver, ResolveError, Stage, Step};
use yande_popular::page::{get_image_list, ParseError};

fn listing(items: &str) -> String {
    format!(
        "<html><body><div id=\"content\"><ul id=\"post-list-posts\">{}</ul></div></body></html>",
        items
    )
}

fn detail(id: i64, score: &str, highres: Option<&str>, notices: &str) -> String {
    let link = match highres {
        Some(u) => format!("<a id=\"highres\" class=\"original-file\" href=\"{}\">Download</a>", u),
        None => String::new(),
    };
    format!(
        "<html><body>{}<div><span id=\"post-score-{}\">{}</span></div>{}</body></html>",
        notices, id, score, link
    )
}

fn parent_notice(parent: i64) -> String {
    format!(
        "<div class=\"status-notice\">This post belongs to a <a href=\"/post/show/{}\">parent post</a>.</div>",
        parent
    )
}

fn child_notice(children: &[i64]) -> String {
    let links: Vec<String> =
        children.iter().map(|c| format!("<a href=\"/post/show/{}\">{}</a>", c, c)).collect();
    format!(
        "<div class=\"status-notice\">This post has <a href=\"/post?tags=parent:1\">child posts</a>. ({})</div>",
        links.join(", ")
    )
}

#[test]
fn listing_in_page_order() {
    let html = listing("<li id=\"p101\"><a>x</a></li><li id=\" p102 \"></li><li id=\"p103\"></li>");
    assert_eq!(get_image_list(&html), Ok(vec![101, 102, 103]));
}

#[test]
fn listing_ignores_other_children_and_lists() {
    let html = format!(
        "<ul id=\"other\"><li id=\"p1\"></li></ul>{}",
        listing("<li id=\"p7\"><ul><li id=\"p8\"></li></ul></li>")
    );
    assert_eq!(get_image_list(&html), Ok(vec![7]));
}

#[test]
fn listing_empty() {
    assert_eq!(get_image_list(&listing("")), Ok(vec![]));
}

#[test]
fn listing_missing_container() {
    let html = "<html><body><ul id=\"posts\"><li id=\"p1\"></li></ul></body></html>";
    assert_eq!(get_image_list(html), Err(ParseError::NoListing));
}

#[test]
fn listing_entry_without_id() {
    assert_eq!(get_image_list(&listing("<li id=\"p1\"></li><li></li>")), Err(ParseError::MissingId));
}

#[test]
fn listing_entry_with_bad_id() {
    assert_eq!(get_image_list(&listing("<li id=\"post-1\"></li>")), Err(ParseError::BadId));
}

fn done(step: Step) -> (i64, u64, Vec<(i64, String)>) {
    match step {
        Step::Done(id, d) => (id, d.score, d.url.into_iter().collect()),
        _ => panic!("group not resolved"),
    }
}

#[test]
fn lone_post_resolves_to_itself() {
    let (mut r, first) = GroupResolver::new(101);
    assert!(matches!(first, Step::Fetch(101)));
    let step = r.on_page(&detail(101, " 75 ", Some("https://files/101.png"), ""));
    assert_eq!(done(step), (101, 75, vec![(101, "https://files/101.png".to_string())]));
    assert_eq!(r.stage, Stage::Finished);
}

#[test]
fn parent_and_child_form_one_group() {
    let (mut r, _) = GroupResolver::new(101);
    let step = r.on_page(&detail(101, "60", Some("https://files/101.jpg"), &parent_notice(100)));
    assert!(matches!(step, Step::Fetch(100)));
    let step = r.on_page(&detail(100, "80", Some("https://files/100.jpg"), &child_notice(&[105])));
    assert!(matches!(step, Step::Fetch(105)));
    let step = r.on_page(&detail(105, "40", Some("https://files/105.jpg"), &parent_notice(100)));
    assert_eq!(
        done(step),
        (
            100,
            80,
            vec![(100, "https://files/100.jpg".to_string()), (105, "https://files/105.jpg".to_string())]
        )
    );
}

#[test]
fn child_score_raises_group_score() {
    let (mut r, _) = GroupResolver::new(1);
    let step = r.on_page(&detail(1, "10", Some("u1"), &child_notice(&[2, 3])));
    assert!(matches!(step, Step::Fetch(2)));
    assert!(matches!(r.on_page(&detail(2, "90", Some("u2"), "")), Step::Fetch(3)));
    let (id, score, urls) = done(r.on_page(&detail(3, "20", Some("u3"), "")));
    assert_eq!((id, score, urls.len()), (1, 90, 3));
}

#[test]
fn repeated_children_fetched_once() {
    let (mut r, _) = GroupResolver::new(1);
    let step = r.on_page(&detail(1, "70", Some("u1"), &child_notice(&[2, 1, 2])));
    assert!(matches!(step, Step::Fetch(2)));
    let (_, _, urls) = done(r.on_page(&detail(2, "70", Some("u2"), "")));
    assert_eq!(urls, vec![(1, "u1".to_string()), (2, "u2".to_string())]);
}

#[test]
fn missing_highres_fails_group() {
    let (mut r, _) = GroupResolver::new(1);
    let step = r.on_page(&detail(1, "70", Some("u1"), &child_notice(&[2])));
    assert!(matches!(step, Step::Fetch(2)));
    let step = r.on_page(&detail(2, "70", None, ""));
    assert!(matches!(step, Step::Failed(ResolveError::Parse(ParseError::NoHighres))));
    assert_eq!(r.stage, Stage::Finished);
}

#[test]
fn highres_without_href() {
    let (mut r, _) = GroupResolver::new(1);
    let html = "<span id=\"post-score-1\">70</span><a id=\"highres\">x</a>";
    assert!(matches!(r.on_page(html), Step::Failed(ResolveError::Parse(ParseError::NoHref))));
}

#[test]
fn score_errors() {
    let (mut r, _) = GroupResolver::new(1);
    let step = r.on_page(&detail(2, "70", Some("u"), ""));
    assert!(matches!(step, Step::Failed(ResolveError::Parse(ParseError::NoScore))));
    let (mut r, _) = GroupResolver::new(1);
    let step = r.on_page(&detail(1, "-3", Some("u"), ""));
    assert!(matches!(step, Step::Failed(ResolveError::Parse(ParseError::BadScore))));
}

#[test]
fn score_is_read_from_a_span_only() {
    let (mut r, _) = GroupResolver::new(1);
    let html = "<div id=\"post-score-1\">99</div><span id=\"post-score-1\">55</span><a id=\"highres\" href=\"u\">d</a>";
    assert_eq!(done(r.on_page(html)).1, 55);
}

#[test]
fn parent_notice_errors() {
    let (mut r, _) = GroupResolver::new(1);
    let html = "<div class=\"status-notice\"><a href=\"/pool/3\">parent post</a></div>";
    assert!(matches!(r.on_page(html), Step::Failed(ResolveError::Parse(ParseError::NoParentLink))));
    let (mut r, _) = GroupResolver::new(1);
    let html = "<div class=\"status-notice\"><a href=\"/post/show/abc\">parent post</a></div>";
    assert!(matches!(r.on_page(html), Step::Failed(ResolveError::Parse(ParseError::BadParentId))));
}

#[test]
fn child_link_with_bad_text() {
    let (mut r, _) = GroupResolver::new(1);
    let notice = "<div class=\"status-notice\"><a href=\"/x\">child post</a> <a href=\"/post/show/2\">two</a></div>";
    let step = r.on_page(&detail(1, "70", Some("u"), notice));
    assert!(matches!(step, Step::Failed(ResolveError::Parse(ParseError::BadChildId))));
}

#[test]
fn fetch_failure_gives_up() {
    let (mut r, _) = GroupResolver::new(1);
    assert!(matches!(r.on_fetch_failed(), Step::Failed(ResolveError::Fetch)));
    assert_eq!(r.stage, Stage::Finished);
}
