//! What a worker does with an admitted group: one provenance notice, then
//! each member's image, in group order.
use crate::dom::{append_chars, chars_of};
use crate::group::{string_of, ImgData};
use crate::number::{render_i64, signed_decimal};
use vstd::prelude::*;

verus! {

/// The address of a post's detail page.
pub open spec fn post_url_text(id: i64) -> Seq<char> {
    "https://yande.re/post/show/"@ + signed_decimal(id as int)
}

pub fn post_url(id: i64) -> (r: String)
    ensures
        r@ == post_url_text(id),
{
    let mut s = chars_of("https://yande.re/post/show/");
    append_chars(&mut s, &render_i64(id));
    string_of(&s)
}

/// The notice sent ahead of a group: a markdown link to its canonical post.
pub open spec fn provenance_text(id: i64) -> Seq<char> {
    "来源：["@ + post_url_text(id) + "]("@ + post_url_text(id) + ")"@
}

pub fn provenance_message(id: i64) -> (r: String)
    ensures
        r@ == provenance_text(id),
{
    let mut url = chars_of("https://yande.re/post/show/");
    append_chars(&mut url, &render_i64(id));
    let mut s = chars_of("来源：[");
    append_chars(&mut s, &url);
    append_chars(&mut s, &chars_of("]("));
    append_chars(&mut s, &url);
    append_chars(&mut s, &chars_of(")"));
    string_of(&s)
}

/// What follows the last `.` of `s`; all of `s` where it has none.
pub open spec fn after_last_dot(s: Seq<char>) -> Seq<char>
    decreases s.len(),
{
    if s.len() == 0 {
        s
    } else if s.last() == '.' {
        Seq::empty()
    } else {
        after_last_dot(s.drop_last()).push(s.last())
    }
}

/// The name under which a member's download is kept: its id, a dot, and the
/// extension of its address.
pub open spec fn attachment_name_text(id: i64, url: Seq<char>) -> Seq<char> {
    signed_decimal(id as int) + "."@ + after_last_dot(url)
}

pub fn attachment_name(id: i64, url: &str) -> (r: String)
    ensures
        r@ == attachment_name_text(id, url@),
{
    let u = chars_of(url);
    let mut ext: Vec<char> = Vec::new();
    let mut i: usize = 0;
    while i < u.len()
        invariant
            i <= u@.len(),
            ext@ == after_last_dot(u@.subrange(0, i as int)),
        decreases u@.len() - i,
    {
        assert(u@.subrange(0, i + 1).drop_last() =~= u@.subrange(0, i as int));
        if u[i] == '.' {
            ext = Vec::new();
        } else {
            ext.push(u[i]);
        }
        i += 1;
    }
    assert(u@.subrange(0, u@.len() as int) =~= u@);
    let mut s = render_i64(id);
    append_chars(&mut s, &chars_of("."));
    append_chars(&mut s, &ext);
    string_of(&s)
}

/// One unit of a worker's work.
pub enum Task {
    /// Send this text.
    Notice(String),
    /// Download this member's image, shrink it, and send it.
    Member(i64, String),
}

pub enum TaskView {
    Notice(Seq<char>),
    Member(i64, Seq<char>),
}

impl View for Task {
    type V = TaskView;

    open spec fn view(&self) -> TaskView {
        match self {
            Task::Notice(s) => TaskView::Notice(s@),
            Task::Member(id, u) => TaskView::Member(*id, u@),
        }
    }
}

/// The worker's tasks for group `id`: the provenance notice, then one task per
/// member in group order.
pub fn delivery_plan(id: i64, data: &ImgData) -> (r: Vec<Task>)
    ensures
        r@.len() == data.url@.len() + 1,
        r@[0]@ == TaskView::Notice(provenance_text(id)),
        forall|i: int|
            0 <= i < data.url@.len() ==> #[trigger] r@[i + 1]@ == TaskView::Member(
                data.links()[i].0,
                data.links()[i].1,
            ),
{
    let mut r: Vec<Task> = Vec::new();
    r.push(Task::Notice(provenance_message(id)));
    let n = data.url.len();
    let mut i: usize = 0;
    while i < n
        invariant
            n == data.url@.len(),
            i <= n,
            r@.len() == i + 1,
            r@[0]@ == TaskView::Notice(provenance_text(id)),
            forall|k: int|
                0 <= k < i ==> #[trigger] r@[k + 1]@ == TaskView::Member(
                    data.links()[k].0,
                    data.links()[k].1,
                ),
        decreases n - i,
    {
        let member = &data.url[i];
        let u = member.1.clone();
        r.push(Task::Member(member.0, u));
        assert(r@[i + 1]@ == TaskView::Member(data.links()[i as int].0, data.links()[i as int].1));
        i += 1;
    }
    r
}

} // verus!
