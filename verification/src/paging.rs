//! Index pages: how the post list is cut into pages, the links between
//! pages, where each page is written, and the figures the index shows.

use vstd::prelude::*;
use crate::content::PostRender;
use crate::tags::{TagInfo, collect_render_tags, is_tag_table, render_tags};
use crate::text::{decimal, decimal_string, push_char};

verus! {

/// Position and neighbours of an index page, for pages of a list longer
/// than one page.
pub struct PaginationInfo {
    /// The page's number, counting from 1.
    pub current: usize,
    pub total: usize,
    pub prev: Option<String>,
    pub next: Option<String>,
}

/// One index page: the posts `start..end` of the list.
pub struct IndexPage {
    /// The page's number, counting from 0.
    pub number: usize,
    pub start: usize,
    pub end: usize,
    pub pagination: Option<PaginationInfo>,
    /// The directory, below the language's directory, that holds the page;
    /// `None` for the first page, which is the language's own index.
    pub dir: Option<String>,
}

/// The figures shown on the index page.
pub struct IndexStats {
    pub total_posts: usize,
    pub total_tags: usize,
    pub total_words: usize,
}

/// The number of pages that `n` posts fill at `per` posts a page.
pub open spec fn pages_needed(n: int, per: int) -> int {
    (n + per - 1) / per
}

/// The number of index pages written: at least one, even without posts.
pub open spec fn pages_written(n: int, per: int) -> int {
    if pages_needed(n, per) == 0 { 1 } else { pages_needed(n, per) }
}

/// The first post of page `k`.
pub open spec fn page_start(k: int, per: int) -> int {
    k * per
}

/// The end of the posts of page `k`.
pub open spec fn page_end(k: int, per: int, n: int) -> int {
    if k * per + per < n { k * per + per } else { n }
}

/// `/lang/`: the root of a language's pages.
pub open spec fn lang_prefix(lang: Seq<char>) -> Seq<char> {
    seq!['/'] + lang + seq!['/']
}

/// `page/`.
pub open spec fn page_segment() -> Seq<char> {
    seq!['p', 'a', 'g', 'e', '/']
}

/// `/lang/page/m/`.
pub open spec fn numbered_link(lang: Seq<char>, m: nat) -> Seq<char> {
    lang_prefix(lang) + page_segment() + decimal(m) + seq!['/']
}

/// The link to page `k` (counting from 0) of language `lang`.
pub open spec fn page_url(lang: Seq<char>, k: nat) -> Seq<char> {
    if k == 0 { lang_prefix(lang) } else { numbered_link(lang, k + 1) }
}

/// The directory of page `k`, below the language's directory.
pub open spec fn page_dir(k: nat) -> Option<Seq<char>> {
    if k == 0 { None } else { Some(page_segment() + decimal(k + 1)) }
}

/// The link to the page before page `k`.
pub open spec fn prev_link(lang: Seq<char>, k: nat) -> Option<Seq<char>> {
    if k == 0 {
        None
    } else if k == 1 {
        Some(lang_prefix(lang))
    } else {
        Some(numbered_link(lang, k))
    }
}

/// The link to the page after page `k` of `total`.
pub open spec fn next_link(lang: Seq<char>, k: nat, total: nat) -> Option<Seq<char>> {
    if k + 1 < total { Some(numbered_link(lang, k + 2)) } else { None }
}

/// An optional string holds `s`.
pub open spec fn opt_is(o: Option<String>, s: Option<Seq<char>>) -> bool {
    match (o, s) {
        (Some(a), Some(b)) => a@ == b,
        (None, None) => true,
        _ => false,
    }
}

/// The pagination of page `k` of `total` pages.
pub open spec fn is_pagination(p: Option<PaginationInfo>, lang: Seq<char>, k: nat, total: nat) -> bool {
    if total > 1 {
        p matches Some(info) && info.current == k + 1 && info.total == total && opt_is(
            info.prev,
            prev_link(lang, k),
        ) && opt_is(info.next, next_link(lang, k, total))
    } else {
        p is None
    }
}

/// `page` is page `k` of the index of `n` posts at `per` a page.
pub open spec fn is_index_page(page: IndexPage, lang: Seq<char>, k: nat, n: int, per: int) -> bool {
    &&& page.number == k
    &&& page.start == page_start(k as int, per)
    &&& page.end == page_end(k as int, per, n)
    &&& is_pagination(page.pagination, lang, k, pages_needed(n, per) as nat)
    &&& opt_is(page.dir, page_dir(k))
}

proof fn lemma_page_bounds(n: int, per: int, k: int)
    requires
        per > 0,
        n >= 0,
        0 <= k < pages_written(n, per),
    ensures
        0 <= k * per,
        n > 0 ==> k * per < n,
        n == 0 ==> k == 0,
        k * per + per <= n + per,
{
    let c = pages_needed(n, per);
    assert(c * per <= n + per - 1) by (nonlinear_arith)
        requires
            c == (n + per - 1) / per,
            per > 0,
            n >= 0,
    ;
    assert(0 <= k * per) by (nonlinear_arith)
        requires
            k >= 0,
            per > 0,
    ;
    if n > 0 {
        assert(c >= 1) by (nonlinear_arith)
            requires
                c == (n + per - 1) / per,
                per > 0,
                n > 0,
        ;
        assert(k * per <= n - 1) by (nonlinear_arith)
            requires
                0 <= k <= c - 1,
                per > 0,
                c * per <= n + per - 1,
        ;
    } else {
        assert(c == 0) by (nonlinear_arith)
            requires
                c == (n + per - 1) / per,
                per > 0,
                n == 0,
        ;
    }
}

/// The number of pages that `n` posts fill at `per_page` posts a page.
pub fn page_count(n: usize, per_page: usize) -> (r: usize)
    requires
        per_page > 0,
        n + per_page - 1 <= usize::MAX,
    ensures
        r == pages_needed(n as int, per_page as int),
{
    (n + (per_page - 1)) / per_page
}

/// Appends `/lang/`.
fn push_prefix(out: &mut String, lang: &str)
    ensures
        final(out)@ == old(out)@ + lang_prefix(lang@),
{
    push_char(out, '/');
    out.append(lang);
    push_char(out, '/');
    assert(final(out)@ =~= old(out)@ + lang_prefix(lang@));
}

/// Appends `page/`.
fn push_page_segment(out: &mut String)
    ensures
        final(out)@ == old(out)@ + page_segment(),
{
    push_char(out, 'p');
    push_char(out, 'a');
    push_char(out, 'g');
    push_char(out, 'e');
    push_char(out, '/');
    assert(final(out)@ =~= old(out)@ + page_segment());
}

/// `/lang/page/m/`.
fn numbered_link_string(lang: &str, m: usize) -> (r: String)
    ensures
        r@ == numbered_link(lang@, m as nat),
{
    let mut out = String::new();
    push_prefix(&mut out, lang);
    push_page_segment(&mut out);
    let d = decimal_string(m as u64);
    out.append(d.as_str());
    push_char(&mut out, '/');
    assert(out@ =~= numbered_link(lang@, m as nat));
    out
}

/// The link to page `k` (counting from 0) of language `lang`.
pub fn page_url_string(lang: &str, k: usize) -> (r: String)
    requires
        k < usize::MAX,
    ensures
        r@ == page_url(lang@, k as nat),
{
    if k == 0 {
        let mut out = String::new();
        push_prefix(&mut out, lang);
        assert(out@ =~= page_url(lang@, 0));
        out
    } else {
        numbered_link_string(lang, k + 1)
    }
}

/// The pagination of page `k` of `total`, if there is more than one page.
pub fn pagination_for(lang: &str, k: usize, total: usize) -> (r: Option<PaginationInfo>)
    requires
        k < total || k == 0,
    ensures
        is_pagination(r, lang@, k as nat, total as nat),
{
    if total <= 1 {
        return None;
    }
    let prev = if k > 0 {
        if k == 1 {
            let mut out = String::new();
            push_prefix(&mut out, lang);
            assert(out@ =~= lang_prefix(lang@));
            Some(out)
        } else {
            Some(numbered_link_string(lang, k))
        }
    } else {
        None
    };
    let next = if k + 1 < total {
        Some(numbered_link_string(lang, k + 2))
    } else {
        None
    };
    Some(PaginationInfo { current: k + 1, total, prev, next })
}

/// The directory of page `k` below the language's directory.
pub fn page_dir_string(k: usize) -> (r: Option<String>)
    requires
        k < usize::MAX,
    ensures
        opt_is(r, page_dir(k as nat)),
{
    if k == 0 {
        None
    } else {
        let mut out = String::new();
        push_page_segment(&mut out);
        let d = decimal_string((k + 1) as u64);
        out.append(d.as_str());
        assert(out@ =~= page_segment() + decimal((k + 1) as nat));
        Some(out)
    }
}

/// The index pages of `n` posts in language `lang` at `per_page` posts a
/// page: one page per `per_page` posts, and one page when there is none.
pub fn index_pages(n: usize, per_page: usize, lang: &str) -> (r: Vec<IndexPage>)
    requires
        per_page > 0,
        n + per_page - 1 <= usize::MAX,
    ensures
        r@.len() == pages_written(n as int, per_page as int),
        forall|k: int|
            0 <= k < r@.len() ==> is_index_page(#[trigger] r@[k], lang@, k as nat, n as int, per_page as int),
{
    let total = page_count(n, per_page);
    let pages = if total == 0 { 1 } else { total };
    proof {
        assert(total <= n + per_page - 1) by (nonlinear_arith)
            requires
                total == (n as int + per_page as int - 1) / (per_page as int),
                per_page > 0,
                n + per_page - 1 >= 0,
        ;
    }
    let mut out: Vec<IndexPage> = Vec::new();
    let mut k: usize = 0;
    while k < pages
        invariant
            per_page > 0,
            n + per_page - 1 <= usize::MAX,
            total == pages_needed(n as int, per_page as int),
            total <= n + per_page - 1,
            pages == pages_written(n as int, per_page as int),
            k <= pages,
            out@.len() == k,
            forall|m: int|
                0 <= m < k ==> is_index_page(#[trigger] out@[m], lang@, m as nat, n as int, per_page as int),
        decreases pages - k,
    {
        proof {
            lemma_page_bounds(n as int, per_page as int, k as int);
        }
        let start = k * per_page;
        let end = if start + per_page < n { start + per_page } else { n };
        let pagination = pagination_for(lang, k, total);
        let dir = page_dir_string(k);
        out.push(IndexPage { number: k, start, end, pagination, dir });
        k += 1;
    }
    out
}

/// The sum of the word counts of `posts`.
pub open spec fn total_words(posts: Seq<PostRender>) -> nat
    decreases posts.len(),
{
    if posts.len() == 0 {
        0
    } else {
        total_words(posts.drop_last()) + posts.last().word_count as nat
    }
}

proof fn lemma_total_words_prefix(posts: Seq<PostRender>, n: int)
    requires
        0 <= n <= posts.len(),
    ensures
        total_words(posts.take(n)) <= total_words(posts),
    decreases posts.len() - n,
{
    if n < posts.len() {
        lemma_total_words_prefix(posts, n + 1);
        assert(posts.take(n + 1).drop_last() =~= posts.take(n));
    } else {
        assert(posts.take(n) =~= posts);
    }
}

/// The figures of the index page: how many posts, how many distinct tags,
/// and the sum of the posts' word counts; with the tags and their counts.
pub fn index_stats(posts: &Vec<PostRender>) -> (r: (IndexStats, Vec<TagInfo>))
    requires
        total_words(posts@) <= usize::MAX,
        render_tags(posts@).len() <= usize::MAX,
    ensures
        r.0.total_posts == posts@.len(),
        r.0.total_words == total_words(posts@),
        is_tag_table(r.1@, render_tags(posts@)),
        r.0.total_tags == r.1@.len(),
{
    let mut words: usize = 0;
    let mut i: usize = 0;
    assert(posts@.take(0) =~= Seq::<PostRender>::empty());
    while i < posts.len()
        invariant
            i <= posts.len(),
            total_words(posts@) <= usize::MAX,
            words == total_words(posts@.take(i as int)),
        decreases posts.len() - i,
    {
        proof {
            assert(posts@.take(i + 1).drop_last() =~= posts@.take(i as int));
            lemma_total_words_prefix(posts@, i + 1);
        }
        words = words + posts[i].word_count;
        i += 1;
    }
    assert(posts@.take(i as int) =~= posts@);
    let tags = collect_render_tags(posts);
    (IndexStats { total_posts: posts.len(), total_tags: tags.len(), total_words: words }, tags)
}

/// The pages cover the post list exactly: the first starts at the first
/// post, each starts where the one before ends, the last ends at the last
/// post, and none holds more than `per` posts or, when there are posts, none.
pub proof fn law_pages_cover_posts(n: int, per: int)
    requires
        n >= 0,
        per > 0,
    ensures
        page_start(0, per) == 0,
        page_end(pages_written(n, per) - 1, per, n) == n,
        forall|k: int|
            0 <= k < pages_written(n, per) - 1 ==> #[trigger] page_end(k, per, n) == page_start(k + 1, per),
        forall|k: int|
            0 <= k < pages_written(n, per) ==> page_start(k, per) <= #[trigger] page_end(k, per, n)
                <= page_start(k, per) + per,
        forall|k: int| 0 <= k < pages_written(n, per) && n > 0 ==> page_start(k, per) < #[trigger] page_end(k, per, n),
{
    let c = pages_written(n, per);
    assert forall|k: int| 0 <= k < c implies page_start(k, per) <= #[trigger] page_end(k, per, n)
        <= page_start(k, per) + per && (n > 0 ==> page_start(k, per) < page_end(k, per, n)) by {
        lemma_page_bounds(n, per, k);
    }
    assert forall|k: int| 0 <= k < c - 1 implies #[trigger] page_end(k, per, n) == page_start(k + 1, per) by {
        lemma_page_bounds(n, per, k + 1);
        assert(k * per + per == (k + 1) * per) by (nonlinear_arith);
    }
    let last = c - 1;
    lemma_page_bounds(n, per, last);
    if n > 0 {
        let p = pages_needed(n, per);
        assert(p * per >= n) by (nonlinear_arith)
            requires
                p == (n + per - 1) / per,
                per > 0,
                n > 0,
        ;
        assert(last * per + per == p * per) by (nonlinear_arith)
            requires
                last == p - 1,
        ;
    }
}

/// The links between pages lead where the pages are: the page before page
/// `k` is at `page_url(k - 1)`, the page after it at `page_url(k + 1)`, and
/// page `k` is written to the directory that its link names.
pub proof fn law_page_links(lang: Seq<char>, k: nat, total: nat)
    ensures
        k > 0 ==> prev_link(lang, k) == Some(page_url(lang, (k - 1) as nat)),
        k + 1 < total ==> next_link(lang, k, total) == Some(page_url(lang, k + 1)),
        page_url(lang, k) == match page_dir(k) {
            Some(d) => lang_prefix(lang) + d + seq!['/'],
            None => lang_prefix(lang),
        },
{
    if k > 0 {
        assert(page_url(lang, k) =~= lang_prefix(lang) + (page_segment() + decimal(k + 1)) + seq!['/']);
    }
}

} // verus!
