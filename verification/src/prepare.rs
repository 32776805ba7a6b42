//! The posts of one language, made ready for its pages: ordered newest
//! first, their markdown and summaries rendered, their page data and the
//! tag table computed.

use vstd::prelude::*;
use crate::content::{Post, PostRender, body_bytes, is_render_of, sort_posts_newest_first};
use crate::markdown::{MarkdownRenderer, generate_summary, rendered, summary_html};
use crate::sort::is_stable_sort_of;
use crate::tags::{TagInfo, collect_tags, is_tag_table, post_tags};

verus! {

/// The posts of a language as its pages use them.
pub struct PreparedPosts {
    /// Newest first, with body and summary rendered.
    pub posts: Vec<Post>,
    /// What the pages show of each post, in the same order.
    pub renders: Vec<PostRender>,
    /// The tags of the posts with their counts, in name order.
    pub tags: Vec<TagInfo>,
}

/// `r` is post `p` with its body and summary rendered with theme `theme`.
pub open spec fn is_rendered_post(r: Post, p: Post, theme: Seq<char>) -> bool {
    &&& r.slug == p.slug
    &&& r.front_matter == p.front_matter
    &&& r.body_raw == p.body_raw
    &&& r.body_html@ == rendered(p.body_raw@, theme)
    &&& r.summary_html@ == summary_html(p, theme)
}

/// Orders the posts newest first (posts of one day keep their order),
/// renders each post's body and summary, and computes what the pages show
/// of each post and the tag table of the posts.
pub fn prepare_posts(renderer: &MarkdownRenderer, posts: Vec<Post>) -> (r: PreparedPosts)
    requires
        post_tags(posts@).len() <= usize::MAX,
    ensures
        r.posts@.len() == posts@.len(),
        exists|order: Seq<Post>|
            is_stable_sort_of(order, posts@) && order.len() == r.posts@.len() && forall|k: int|
                0 <= k < order.len() ==> is_rendered_post(#[trigger] r.posts@[k], order[k], renderer.theme()),
        r.renders@.len() == r.posts@.len(),
        forall|k: int|
            0 <= k < r.renders@.len() ==> is_render_of(#[trigger] r.renders@[k], r.posts@[k], body_bytes(r.posts@[k])),
        is_tag_table(r.tags@, post_tags(posts@)),
{
    let tags = collect_tags(&posts);
    let mut sorted = posts;
    sort_posts_newest_first(&mut sorted);
    let ghost order = sorted@;
    let n = sorted.len();
    let mut done: Vec<Post> = Vec::new();
    let mut renders: Vec<PostRender> = Vec::new();
    let mut i: usize = 0;
    assert(sorted@ =~= order.skip(0));
    while i < n
        invariant
            n == order.len(),
            i <= n,
            sorted@ == order.skip(i as int),
            done@.len() == i,
            renders@.len() == i,
            forall|k: int| 0 <= k < i ==> is_rendered_post(#[trigger] done@[k], order[k], renderer.theme()),
            forall|k: int|
                0 <= k < i ==> is_render_of(#[trigger] renders@[k], done@[k], body_bytes(done@[k])),
        decreases n - i,
    {
        let mut p = sorted.remove(0);
        assert(p == order[i as int]);
        assert(sorted@ =~= order.skip(i + 1));
        let summary = generate_summary(renderer, &p);
        p.body_html = renderer.render(p.body_raw.as_str());
        p.summary_html = summary;
        let data = p.render_data();
        done.push(p);
        renders.push(data);
        i += 1;
    }
    PreparedPosts { posts: done, renders, tags }
}

} // verus!
