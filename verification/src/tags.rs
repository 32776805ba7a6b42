//! Tag statistics: each tag once, in name order, with the number of times
//! posts carry it; and the posts that carry a tag.

use vstd::prelude::*;
use crate::content::{Post, PostRender, body_bytes, is_render_of};
use crate::text::{lemma_seq_less_irreflexive, lemma_seq_less_total, lemma_seq_less_transitive, seq_less, str_eq, str_less};

verus! {

/// A tag and the number of times posts carry it.
pub struct TagInfo {
    pub name: String,
    pub count: usize,
}

/// How many of `tags` are `name`.
pub open spec fn count_in(tags: Seq<String>, name: Seq<char>) -> nat
    decreases tags.len(),
{
    if tags.len() == 0 {
        0
    } else {
        count_in(tags.drop_last(), name) + if tags.last()@ == name { 1nat } else { 0nat }
    }
}

/// The tags of `posts`, one after another.
pub open spec fn post_tags(posts: Seq<Post>) -> Seq<String>
    decreases posts.len(),
{
    if posts.len() == 0 {
        seq![]
    } else {
        post_tags(posts.drop_last()) + posts.last().front_matter.tags@
    }
}

/// The tags of rendered posts, one after another.
pub open spec fn render_tags(posts: Seq<PostRender>) -> Seq<String>
    decreases posts.len(),
{
    if posts.len() == 0 {
        seq![]
    } else {
        render_tags(posts.drop_last()) + posts.last().tags@
    }
}

/// `table` lists each tag of `tags` once, in strictly increasing name order,
/// with the number of times it occurs in `tags`.
pub open spec fn is_tag_table(table: Seq<TagInfo>, tags: Seq<String>) -> bool {
    &&& forall|i: int, j: int|
        0 <= i < j < table.len() ==> seq_less(#[trigger] table[i].name@, #[trigger] table[j].name@)
    &&& forall|i: int|
        0 <= i < table.len() ==> (#[trigger] table[i]).count == count_in(tags, table[i].name@)
            && table[i].count > 0
    &&& forall|k: int| 0 <= k < tags.len() ==> lists_tag(table, (#[trigger] tags[k])@)
}

/// `table` has an entry for `name`.
pub open spec fn lists_tag(table: Seq<TagInfo>, name: Seq<char>) -> bool {
    exists|i: int| 0 <= i < table.len() && table[i].name@ == name
}

proof fn lemma_count_in_push(tags: Seq<String>, t: String, name: Seq<char>)
    ensures
        count_in(tags.push(t), name) == count_in(tags, name) + if t@ == name { 1nat } else { 0nat },
{
    assert(tags.push(t).drop_last() =~= tags);
}

proof fn lemma_count_in_bound(tags: Seq<String>, name: Seq<char>)
    ensures
        count_in(tags, name) <= tags.len(),
    decreases tags.len(),
{
    if tags.len() > 0 {
        lemma_count_in_bound(tags.drop_last(), name);
    }
}

/// Counts one more occurrence of `t` in a tag table.
fn add_tag(table: &mut Vec<TagInfo>, t: &String, Ghost(tags): Ghost<Seq<String>>)
    requires
        is_tag_table(old(table)@, tags),
        tags.len() < usize::MAX,
    ensures
        is_tag_table(final(table)@, tags.push(*t)),
{
    let ghost old_t = table@;
    let ghost new_tags = tags.push(*t);
    proof {
        assert forall|name: Seq<char>| #![auto] count_in(new_tags, name) == count_in(tags, name) + if t@
            == name { 1nat } else { 0nat } by {
            lemma_count_in_push(tags, *t, name);
        }
        assert forall|k: int| 0 <= k < tags.len() implies #[trigger] new_tags[k] == tags[k] by {}
    }
    let mut p: usize = 0;
    while p < table.len() && str_less(table[p].name.as_str(), t.as_str())
        invariant
            p <= table.len(),
            table@ == old_t,
            forall|i: int| 0 <= i < p ==> seq_less(#[trigger] table@[i].name@, t@),
        decreases table.len() - p,
    {
        p += 1;
    }
    if p < table.len() && str_eq(table[p].name.as_str(), t.as_str()) {
        let name = table[p].name.clone();
        let c = table[p].count;
        proof {
            lemma_count_in_bound(tags, t@);
        }
        table.set(p, TagInfo { name, count: c + 1 });
        proof {
            let nt = table@;
            assert forall|i: int| 0 <= i < nt.len() implies (#[trigger] nt[i]).count == count_in(
                new_tags,
                nt[i].name@,
            ) && nt[i].count > 0 by {
                if i != p {
                    assert(nt[i] == old_t[i]);
                    if old_t[i].name@ == t@ {
                        if i < p {
                            assert(old_t[i].name@ == old_t[p as int].name@);
                            assert(seq_less(old_t[i].name@, old_t[p as int].name@));
                            lemma_seq_less_irreflexive(old_t[i].name@);
                        } else {
                            assert(seq_less(old_t[p as int].name@, old_t[i].name@));
                            lemma_seq_less_irreflexive(old_t[i].name@);
                        }
                    }
                }
            }
            assert forall|k: int| 0 <= k < new_tags.len() implies lists_tag(nt, (#[trigger] new_tags[k])@) by {
                if k < tags.len() {
                    assert(lists_tag(old_t, tags[k]@));
                    let i = choose|i: int| 0 <= i < old_t.len() && old_t[i].name@ == tags[k]@;
                    assert(nt[i].name@ == old_t[i].name@);
                } else {
                    assert(nt[p as int].name@ == new_tags[k]@);
                }
            }
            assert forall|i: int, j: int| 0 <= i < j < nt.len() implies seq_less(
                #[trigger] nt[i].name@,
                #[trigger] nt[j].name@,
            ) by {
                assert(nt[i].name@ == old_t[i].name@);
                assert(nt[j].name@ == old_t[j].name@);
            }
            assert(is_tag_table(nt, new_tags));
        }
    } else {
        proof {
            if p < table.len() {
                lemma_seq_less_total(table@[p as int].name@, t@);
            }
        }
        let info = TagInfo { name: t.clone(), count: 1 };
        table.insert(p, info);
        proof {
            let nt = table@;
            old_t.insert_ensures(p as int, info);
            assert(info.name@ == t@);
            // Every name after the insertion point sorts after `t`.
            assert forall|j: int| p <= j < old_t.len() implies seq_less(t@, #[trigger] old_t[j].name@) by {
                if j > p {
                    lemma_seq_less_transitive(t@, old_t[p as int].name@, old_t[j].name@);
                }
            }
            assert forall|i: int| 0 <= i < old_t.len() implies #[trigger] old_t[i].name@ != t@ by {
                lemma_seq_less_irreflexive(t@);
            }
            assert forall|i: int, j: int| 0 <= i < j < nt.len() implies seq_less(
                #[trigger] nt[i].name@,
                #[trigger] nt[j].name@,
            ) by {
                if j < p {
                    assert(nt[i] == old_t[i] && nt[j] == old_t[j]);
                } else if j == p {
                    assert(nt[i] == old_t[i]);
                } else if i < p {
                    assert(nt[i] == old_t[i] && nt[j] == old_t[j - 1]);
                    lemma_seq_less_transitive(old_t[i].name@, t@, old_t[j - 1].name@);
                } else if i == p {
                    assert(nt[j] == old_t[j - 1]);
                } else {
                    assert(nt[i] == old_t[i - 1] && nt[j] == old_t[j - 1]);
                }
            }
            assert forall|i: int| 0 <= i < nt.len() implies (#[trigger] nt[i]).count == count_in(
                new_tags,
                nt[i].name@,
            ) && nt[i].count > 0 by {
                if i < p {
                    assert(nt[i] == old_t[i]);
                } else if i > p {
                    assert(nt[i] == old_t[i - 1]);
                } else {
                    assert(count_in(tags, t@) == 0) by {
                        if count_in(tags, t@) > 0 {
                            lemma_count_positive_occurs(tags, t@);
                            let k = choose|k: int| 0 <= k < tags.len() && tags[k]@ == t@;
                            assert(lists_tag(old_t, tags[k]@));
                        }
                    }
                }
            }
            assert forall|k: int| 0 <= k < new_tags.len() implies lists_tag(nt, (#[trigger] new_tags[k])@) by {
                if k < tags.len() {
                    assert(lists_tag(old_t, tags[k]@));
                    let i = choose|i: int| 0 <= i < old_t.len() && old_t[i].name@ == tags[k]@;
                    if i < p {
                        assert(nt[i] == old_t[i]);
                    } else {
                        assert(nt[i + 1] == old_t[i]);
                    }
                } else {
                    assert(nt[p as int].name@ == new_tags[k]@);
                }
            }
            assert(is_tag_table(nt, new_tags));
        }
    }
}

/// A name counted in `tags` occurs in `tags`.
proof fn lemma_count_positive_occurs(tags: Seq<String>, name: Seq<char>)
    requires
        count_in(tags, name) > 0,
    ensures
        exists|k: int| 0 <= k < tags.len() && tags[k]@ == name,
    decreases tags.len(),
{
    if tags.last()@ != name {
        lemma_count_positive_occurs(tags.drop_last(), name);
        let k = choose|k: int| 0 <= k < tags.len() - 1 && tags.drop_last()[k]@ == name;
        assert(tags[k] == tags.drop_last()[k]);
    } else {
        assert(tags[tags.len() - 1]@ == name);
    }
}

/// Adds the tags of one post to a tag table.
fn add_tags(table: &mut Vec<TagInfo>, tags: &Vec<String>, Ghost(seen): Ghost<Seq<String>>)
    requires
        is_tag_table(old(table)@, seen),
        seen.len() + tags.len() <= usize::MAX,
    ensures
        is_tag_table(final(table)@, seen + tags@),
{
    let mut j: usize = 0;
    assert(seen + tags@.take(0) =~= seen);
    while j < tags.len()
        invariant
            j <= tags.len(),
            seen.len() + tags.len() <= usize::MAX,
            is_tag_table(table@, seen + tags@.take(j as int)),
        decreases tags.len() - j,
    {
        add_tag(table, &tags[j], Ghost(seen + tags@.take(j as int)));
        assert((seen + tags@.take(j as int)).push(tags@[j as int]) =~= seen + tags@.take(j + 1));
        j += 1;
    }
    assert(tags@.take(j as int) =~= tags@);
}

/// The tags of posts with their counts, in name order: each tag once, with
/// the number of times posts carry it.
pub fn collect_tags(posts: &Vec<Post>) -> (r: Vec<TagInfo>)
    requires
        post_tags(posts@).len() <= usize::MAX,
    ensures
        is_tag_table(r@, post_tags(posts@)),
{
    let mut table: Vec<TagInfo> = Vec::new();
    let mut i: usize = 0;
    assert(post_tags(posts@.take(0)) =~= Seq::<String>::empty());
    while i < posts.len()
        invariant
            i <= posts.len(),
            post_tags(posts@).len() <= usize::MAX,
            is_tag_table(table@, post_tags(posts@.take(i as int))),
        decreases posts.len() - i,
    {
        proof {
            assert(posts@.take(i + 1).drop_last() =~= posts@.take(i as int));
            lemma_post_tags_prefix(posts@, i + 1);
        }
        add_tags(&mut table, &posts[i].front_matter.tags, Ghost(post_tags(posts@.take(i as int))));
        i += 1;
    }
    assert(posts@.take(i as int) =~= posts@);
    table
}

/// The tags of a prefix of the posts are no more than those of all posts.
proof fn lemma_post_tags_prefix(posts: Seq<Post>, n: int)
    requires
        0 <= n <= posts.len(),
    ensures
        post_tags(posts.take(n)).len() <= post_tags(posts).len(),
    decreases posts.len() - n,
{
    if n < posts.len() {
        lemma_post_tags_prefix(posts, n + 1);
        assert(posts.take(n + 1).drop_last() =~= posts.take(n));
    } else {
        assert(posts.take(n) =~= posts);
    }
}

/// The tags of a prefix of the rendered posts are no more than those of all.
proof fn lemma_render_tags_prefix(posts: Seq<PostRender>, n: int)
    requires
        0 <= n <= posts.len(),
    ensures
        render_tags(posts.take(n)).len() <= render_tags(posts).len(),
    decreases posts.len() - n,
{
    if n < posts.len() {
        lemma_render_tags_prefix(posts, n + 1);
        assert(posts.take(n + 1).drop_last() =~= posts.take(n));
    } else {
        assert(posts.take(n) =~= posts);
    }
}

/// The tags of rendered posts with their counts, in name order.
pub fn collect_render_tags(posts: &Vec<PostRender>) -> (r: Vec<TagInfo>)
    requires
        render_tags(posts@).len() <= usize::MAX,
    ensures
        is_tag_table(r@, render_tags(posts@)),
{
    let mut table: Vec<TagInfo> = Vec::new();
    let mut i: usize = 0;
    assert(render_tags(posts@.take(0)) =~= Seq::<String>::empty());
    while i < posts.len()
        invariant
            i <= posts.len(),
            render_tags(posts@).len() <= usize::MAX,
            is_tag_table(table@, render_tags(posts@.take(i as int))),
        decreases posts.len() - i,
    {
        proof {
            assert(posts@.take(i + 1).drop_last() =~= posts@.take(i as int));
            lemma_render_tags_prefix(posts@, i + 1);
        }
        add_tags(&mut table, &posts[i].tags, Ghost(render_tags(posts@.take(i as int))));
        i += 1;
    }
    assert(posts@.take(i as int) =~= posts@);
    table
}

/// `tags` holds `name`.
pub open spec fn has_tag(tags: Seq<String>, name: Seq<char>) -> bool {
    exists|k: int| 0 <= k < tags.len() && tags[k]@ == name
}

/// The posts that carry tag `name`, in order.
pub open spec fn posts_tagged(posts: Seq<Post>, name: Seq<char>) -> Seq<Post>
    decreases posts.len(),
{
    if posts.len() == 0 {
        seq![]
    } else if has_tag(posts.last().front_matter.tags@, name) {
        posts_tagged(posts.drop_last(), name).push(posts.last())
    } else {
        posts_tagged(posts.drop_last(), name)
    }
}

/// The posts of tag `name` are exactly the posts, in their order, one of
/// whose tags is `name`: no post without it is listed, and none with it is
/// left out.
pub proof fn law_posts_tagged(posts: Seq<Post>, name: Seq<char>)
    ensures
        posts_tagged(posts, name) == posts.filter(
            |p: Post| exists|k: int| 0 <= k < p.front_matter.tags@.len() && p.front_matter.tags@[k]@ == name,
        ),
        forall|i: int|
            0 <= i < posts_tagged(posts, name).len() ==> exists|k: int|
                0 <= k < (#[trigger] posts_tagged(posts, name)[i]).front_matter.tags@.len()
                    && posts_tagged(posts, name)[i].front_matter.tags@[k]@ == name,
        forall|i: int, k: int|
            #![trigger posts[i].front_matter.tags@[k]]
            0 <= i < posts.len() && 0 <= k < posts[i].front_matter.tags@.len()
                && posts[i].front_matter.tags@[k]@ == name ==> posts_tagged(posts, name).contains(posts[i]),
    decreases posts.len(),
{
    let pred = |p: Post| exists|k: int| 0 <= k < p.front_matter.tags@.len() && p.front_matter.tags@[k]@ == name;
    reveal_with_fuel(Seq::filter, 1);
    if posts.len() > 0 {
        law_posts_tagged(posts.drop_last(), name);
    }
    assert(posts_tagged(posts, name) == posts.filter(pred));
    assert forall|i: int| 0 <= i < posts.filter(pred).len() implies pred(#[trigger] posts.filter(pred)[i]) by {
        posts.lemma_filter_pred(pred, i);
    }
    assert forall|i: int, k: int|
        #![trigger posts[i].front_matter.tags@[k]]
        0 <= i < posts.len() && 0 <= k < posts[i].front_matter.tags@.len()
            && posts[i].front_matter.tags@[k]@ == name implies posts.filter(pred).contains(posts[i]) by {
        assert(pred(posts[i]));
        posts.lemma_filter_contains(pred, i);
    }
}

/// A list of tags holds `name`.
pub fn contains_tag(tags: &Vec<String>, name: &str) -> (r: bool)
    ensures
        r == has_tag(tags@, name@),
{
    let mut k: usize = 0;
    while k < tags.len()
        invariant
            k <= tags.len(),
            forall|m: int| 0 <= m < k ==> tags@[m]@ != name@,
        decreases tags.len() - k,
    {
        if str_eq(tags[k].as_str(), name) {
            return true;
        }
        k += 1;
    }
    false
}

/// What the page of tag `name` lists: each post that carries the tag, in
/// order, as a page shows it.
pub fn posts_with_tag(posts: &Vec<Post>, name: &str) -> (r: Vec<PostRender>)
    ensures
        r@.len() == posts_tagged(posts@, name@).len(),
        forall|k: int|
            0 <= k < r@.len() ==> is_render_of(
                #[trigger] r@[k],
                posts_tagged(posts@, name@)[k],
                body_bytes(posts_tagged(posts@, name@)[k]),
            ),
{
    let mut out: Vec<PostRender> = Vec::new();
    let mut i: usize = 0;
    assert(posts@.take(0) =~= Seq::<Post>::empty());
    while i < posts.len()
        invariant
            i <= posts.len(),
            out@.len() == posts_tagged(posts@.take(i as int), name@).len(),
            forall|k: int|
                0 <= k < out@.len() ==> is_render_of(
                    #[trigger] out@[k],
                    posts_tagged(posts@.take(i as int), name@)[k],
                    body_bytes(posts_tagged(posts@.take(i as int), name@)[k]),
                ),
        decreases posts.len() - i,
    {
        proof {
            assert(posts@.take(i + 1).drop_last() =~= posts@.take(i as int));
            assert(posts@.take(i + 1).last() == posts@[i as int]);
        }
        if contains_tag(&posts[i].front_matter.tags, name) {
            let r = posts[i].render_data();
            out.push(r);
        }
        i += 1;
    }
    assert(posts@.take(i as int) =~= posts@);
    out
}

} // verus!
