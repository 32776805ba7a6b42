//! Posts: front matter, the split of a post file into front matter and body,
//! the data a page shows of a post, and the order of posts.

use vstd::prelude::*;
use crate::date::Date;
use crate::date::date_later;
use crate::sort::{SortKey, is_permutation, is_stable_sort_of, stable_sort, stable_sort_by};
use crate::text::{
    chars_of, find_chars, find_from, matches_at, occurs_at, push_char, string_of, trim, trim_chars,
    trim_range,
};

verus! {

/// The metadata block at the top of a post.
pub struct FrontMatter {
    pub title: String,
    pub date: Date,
    pub tags: Vec<String>,
    pub draft: bool,
    pub summary: Option<String>,
}

/// What a page shows of a post.
pub struct PostRender {
    pub title: String,
    pub slug: String,
    pub date: String,
    pub date_iso: String,
    pub tags: Vec<String>,
    pub content_html: String,
    pub summary_html: String,
    pub summary: String,
    pub word_count: usize,
}

/// A post as loaded from its file.
pub struct Post {
    pub slug: String,
    pub front_matter: FrontMatter,
    pub body_raw: String,
    pub body_html: String,
    pub summary_html: String,
}

/// `r` is what a page shows of post `p`, with `word_count` as its length.
pub open spec fn is_render_of(r: PostRender, p: Post, word_count: usize) -> bool {
    &&& r.title == p.front_matter.title
    &&& r.slug == p.slug
    &&& r.date@ == p.front_matter.date.text()
    &&& r.date_iso@ == p.front_matter.date.text()
    &&& r.tags@ == p.front_matter.tags@
    &&& r.content_html == p.body_html
    &&& r.summary_html == p.summary_html
    &&& r.summary@ == (match p.front_matter.summary {
        Some(s) => s@,
        None => Seq::<char>::empty(),
    })
    &&& r.word_count == word_count
}

/// The length of `s` in UTF-8 bytes, as `str::len` reports it.
pub open spec fn utf8_len(s: Seq<char>) -> usize {
    vstd::utf8::encode_utf8(s).len() as usize
}

/// The length of the post's source text in UTF-8 bytes, which the site
/// shows as its word count.
pub open spec fn body_bytes(p: Post) -> usize {
    utf8_len(p.body_raw@)
}

impl Post {
    /// What a page shows of this post.
    pub fn to_render(&self, word_count: usize) -> (r: PostRender)
        ensures
            is_render_of(r, *self, word_count),
    {
        let summary = match &self.front_matter.summary {
            Some(s) => s.clone(),
            None => String::new(),
        };
        let tags = self.front_matter.tags.clone();
        assert(tags@ =~= self.front_matter.tags@);
        PostRender {
            title: self.front_matter.title.clone(),
            slug: self.slug.clone(),
            date: self.front_matter.date.format_ymd(),
            date_iso: self.front_matter.date.format_ymd(),
            tags,
            content_html: self.body_html.clone(),
            summary_html: self.summary_html.clone(),
            summary,
            word_count,
        }
    }

    /// The size of the source text in UTF-8 bytes.
    pub fn word_count(&self) -> (r: usize)
        ensures
            r == body_bytes(*self),
    {
        self.body_raw.as_str().len()
    }

    /// What a page shows of this post, counting its source bytes.
    pub fn render_data(&self) -> (r: PostRender)
        ensures
            is_render_of(r, *self, body_bytes(*self)),
    {
        let n = self.word_count();
        self.to_render(n)
    }
}

impl SortKey for Post {
    /// Newer posts come first.
    open spec fn precedes(self, other: Self) -> bool {
        date_later(self.front_matter.date, other.front_matter.date)
    }

    fn goes_before(&self, other: &Self) -> (r: bool) {
        self.front_matter.date.is_later_than(&other.front_matter.date)
    }

    proof fn lemma_strict_weak_order(a: Self, b: Self, c: Self) {
    }
}

/// Orders posts newest first; posts of the same day keep their order.
pub fn sort_posts_newest_first(posts: &mut Vec<Post>)
    ensures
        is_stable_sort_of(final(posts)@, old(posts)@),
{
    stable_sort(posts);
}

/// One post goes before another exactly when its day is later: a later
/// year, or the same year and a later month, or the same month and a later
/// day.
pub proof fn law_post_order(p: Post, q: Post)
    ensures
        p.precedes(q) <==> ({
            let a = p.front_matter.date;
            let b = q.front_matter.date;
            ||| a.year > b.year
            ||| a.year == b.year && a.month > b.month
            ||| a.year == b.year && a.month == b.month && a.day > b.day
        }),
{
}

/// Sorted newest first, the posts are those given, their days never
/// increase along the list (compared by year, then month, then day), and
/// posts of the same day keep the order in which they were given.
pub proof fn law_sorted_newest_first(orig: Seq<Post>, sorted: Seq<Post>)
    requires
        is_stable_sort_of(sorted, orig),
    ensures
        sorted.len() == orig.len(),
        forall|a: int, b: int|
            0 <= a < b < sorted.len() ==> ({
                let x = (#[trigger] sorted[a]).front_matter.date;
                let y = (#[trigger] sorted[b]).front_matter.date;
                ||| x.year > y.year
                ||| x.year == y.year && x.month > y.month
                ||| x.year == y.year && x.month == y.month && x.day >= y.day
            }),
        exists|p: Seq<int>|
            {
                &&& is_permutation(p, orig.len() as int)
                &&& forall|k: int| 0 <= k < sorted.len() ==> #[trigger] sorted[k] == orig[p[k]]
                &&& forall|a: int, b: int|
                    0 <= a < b < sorted.len() && (#[trigger] sorted[a]).front_matter.date
                        == (#[trigger] sorted[b]).front_matter.date ==> p[a] < p[b]
            },
{
    let p = choose|p: Seq<int>| stable_sort_by(sorted, orig, p);
    assert forall|a: int, b: int|
        0 <= a < b < sorted.len() && (#[trigger] sorted[a]).front_matter.date
            == (#[trigger] sorted[b]).front_matter.date implies p[a] < p[b] by {
        assert(!sorted[a].precedes(sorted[b]) && !sorted[b].precedes(sorted[a]));
    }
}

// ---------------------------------------------------------------------------
// Front matter framing
// ---------------------------------------------------------------------------

/// Why a post file has no usable front matter block.
#[derive(Debug, Clone, Copy, PartialEq, Eq, Structural)]
pub enum FrontMatterError {
    /// The text does not start with `---`.
    Missing,
    /// No line `---` closes the block.
    Unclosed,
}

impl FrontMatterError {
    /// The message shown for the error.
    pub fn message(&self) -> (r: String)
        ensures
            *self == FrontMatterError::Missing ==> r@ == "文章缺少 Front Matter (---)"@,
            *self == FrontMatterError::Unclosed ==> r@ == "Front Matter 未正确关闭"@,
    {
        match self {
            FrontMatterError::Missing => "文章缺少 Front Matter (---)".to_owned(),
            FrontMatterError::Unclosed => "Front Matter 未正确关闭".to_owned(),
        }
    }
}

/// `---`.
pub open spec fn fence() -> Seq<char> {
    seq!['-', '-', '-']
}

/// A line break followed by `---`: the end of the front matter block.
pub open spec fn closing_fence() -> Seq<char> {
    seq!['\n', '-', '-', '-']
}

/// How a post file splits into the text of its front matter block and its
/// body. The file is trimmed; it must start with `---`; the block ends at the
/// first `\n---` after that; block and body are trimmed.
pub open spec fn front_matter_split(content: Seq<char>) -> Result<
    (Seq<char>, Seq<char>),
    FrontMatterError,
> {
    let t = trim(content);
    if !occurs_at(t, fence(), 0) {
        Err(FrontMatterError::Missing)
    } else {
        match find_from(t, closing_fence(), 3) {
            None => Err(FrontMatterError::Unclosed),
            Some(k) => Ok((trim(t.subrange(3, k)), trim(t.subrange(k + 4, t.len() as int)))),
        }
    }
}

/// Splits a post file into the YAML text of its front matter and its body.
pub fn split_front_matter(content: &str) -> (r: Result<(String, String), FrontMatterError>)
    ensures
        match (r, front_matter_split(content@)) {
            (Ok((y, b)), Ok((ys, bs))) => y@ == ys && b@ == bs,
            (Err(e), Err(es)) => e == es,
            _ => false,
        },
{
    let trimmed = trim_str_of(content);
    let t = chars_of(trimmed.as_str());
    let mut fence_chars: Vec<char> = Vec::new();
    fence_chars.push('-');
    fence_chars.push('-');
    fence_chars.push('-');
    assert(fence_chars@ =~= fence());
    if !matches_at(&t, &fence_chars, 0) {
        return Err(FrontMatterError::Missing);
    }
    let mut closing: Vec<char> = Vec::new();
    closing.push('\n');
    closing.push('-');
    closing.push('-');
    closing.push('-');
    assert(closing@ =~= closing_fence());
    match find_chars(&t, &closing, 3) {
        None => Err(FrontMatterError::Unclosed),
        Some(k) => {
            proof {
                crate::text::lemma_find_from(t@, closing@, 3);
            }
            let yaml = trim_range(&t, 3, k);
            let body = trim_range(&t, k + 4, t.len());
            Ok((yaml, body))
        },
    }
}

fn trim_str_of(s: &str) -> (r: String)
    ensures
        r@ == trim(s@),
{
    crate::text::trim_str(s)
}

// ---------------------------------------------------------------------------
// Summary paragraph
// ---------------------------------------------------------------------------

/// A line without the `\r` of a `\r\n` line end.
pub open spec fn drop_cr(l: Seq<char>) -> Seq<char> {
    if l.len() > 0 && l.last() == '\r' {
        l.drop_last()
    } else {
        l
    }
}

/// The lines of `s` as `str::lines` yields them, continuing from the lines
/// `done` and the unfinished line `cur`: a line ends at `\n`, which is
/// dropped with a `\r` before it; a last line without `\n` is kept as it is.
pub open spec fn lines_from(s: Seq<char>, done: Seq<Seq<char>>, cur: Seq<char>) -> Seq<Seq<char>>
    decreases s.len(),
{
    if s.len() == 0 {
        if cur.len() > 0 {
            done.push(cur)
        } else {
            done
        }
    } else if s[0] == '\n' {
        lines_from(s.drop_first(), done.push(drop_cr(cur)), seq![])
    } else {
        lines_from(s.drop_first(), done, cur.push(s[0]))
    }
}

/// The lines of `s`: `str::lines`.
pub open spec fn lines(s: Seq<char>) -> Seq<Seq<char>> {
    lines_from(s, seq![], seq![])
}

/// The lines of `v`, each as its characters.
pub fn split_lines(v: &Vec<char>) -> (r: Vec<Vec<char>>)
    ensures
        r@.map_values(|l: Vec<char>| l@) == lines(v@),
{
    let mut done: Vec<Vec<char>> = Vec::new();
    let mut cur: Vec<char> = Vec::new();
    let mut i: usize = 0;
    assert(v@.skip(0) =~= v@);
    assert(done@.map_values(|l: Vec<char>| l@) =~= Seq::<Seq<char>>::empty());
    while i < v.len()
        invariant
            i <= v.len(),
            lines(v@) == lines_from(v@.skip(i as int), done@.map_values(|l: Vec<char>| l@), cur@),
        decreases v.len() - i,
    {
        let c = v[i];
        let ghost before = done@.map_values(|l: Vec<char>| l@);
        proof {
            assert(v@.skip(i as int)[0] == c);
            assert(v@.skip(i as int).drop_first() =~= v@.skip(i + 1));
        }
        if c == '\n' {
            let mut line = cur;
            if line.len() > 0 && line[line.len() - 1] == '\r' {
                line.pop();
                assert(line@ =~= drop_cr(cur@));
            }
            assert(line@ == drop_cr(cur@));
            done.push(line);
            assert(done@.map_values(|l: Vec<char>| l@) =~= before.push(drop_cr(cur@)));
            cur = Vec::new();
            assert(cur@ =~= Seq::<char>::empty());
        } else {
            cur.push(c);
        }
        i += 1;
    }
    assert(v@.skip(i as int) =~= Seq::<char>::empty());
    if cur.len() > 0 {
        let ghost before = done@.map_values(|l: Vec<char>| l@);
        let ghost last = cur@;
        done.push(cur);
        assert(done@.map_values(|l: Vec<char>| l@) =~= before.push(last));
    }
    done
}

/// The byte length of a paragraph after which no further line is added.
pub const SUMMARY_BYTES: usize = 300;

/// The opening paragraph that stands in for a summary, before trimming: the
/// first run of non-blank lines, each followed by a space, cut off after the
/// line that takes it past `SUMMARY_BYTES` UTF-8 bytes.
pub open spec fn paragraph_from(ls: Seq<Seq<char>>, in_paragraph: bool, par: Seq<char>) -> Seq<char>
    decreases ls.len(),
{
    if ls.len() == 0 {
        par
    } else if trim(ls[0]).len() == 0 {
        if in_paragraph {
            par
        } else {
            paragraph_from(ls.drop_first(), in_paragraph, par)
        }
    } else {
        let p2 = par + ls[0] + seq![' '];
        if utf8_len(p2) > SUMMARY_BYTES {
            p2
        } else {
            paragraph_from(ls.drop_first(), true, p2)
        }
    }
}

/// The opening paragraph of a post body, trimmed.
pub open spec fn opening_paragraph(body: Seq<char>) -> Seq<char> {
    trim(paragraph_from(lines(body), false, seq![]))
}

/// The opening paragraph of a post body, which stands in for its summary.
pub fn summary_paragraph(body: &str) -> (r: String)
    ensures
        r@ == opening_paragraph(body@),
{
    let v = chars_of(body);
    let ls = split_lines(&v);
    let ghost lv = ls@.map_values(|l: Vec<char>| l@);
    let mut par = String::new();
    let mut in_paragraph = false;
    let mut i: usize = 0;
    assert(lv.skip(0) =~= lv);
    while i < ls.len()
        invariant_except_break
            i <= ls.len(),
            lv == ls@.map_values(|l: Vec<char>| l@),
            lv.skip(i as int).len() == lv.len() - i,
            paragraph_from(lv, false, seq![]) == paragraph_from(lv.skip(i as int), in_paragraph, par@),
        invariant
            lv == lines(body@),
        ensures
            paragraph_from(lv, false, seq![]) == par@,
        decreases ls.len() - i,
    {
        proof {
            assert(lv.skip(i as int)[0] == ls@[i as int]@);
            assert(lv.skip(i as int).drop_first() =~= lv.skip(i + 1));
        }
        let ghost rest = lv.skip(i as int);
        let ghost line_v = ls@[i as int]@;
        let t = trim_chars(&ls[i]);
        if t.as_str().is_empty() {
            assert(trim(rest[0]).len() == 0);
            if in_paragraph {
                break;
            }
        } else {
            assert(trim(rest[0]).len() != 0);
            let ghost old_in = in_paragraph;
            let ghost old_par = par@;
            in_paragraph = true;
            let line = string_of(&ls[i]);
            par.append(line.as_str());
            push_char(&mut par, ' ');
            assert(par@ =~= old_par + rest[0] + seq![' ']);
            assert(paragraph_from(rest, old_in, old_par) == (if utf8_len(par@) > SUMMARY_BYTES {
                par@
            } else {
                paragraph_from(rest.drop_first(), true, par@)
            }));
            let n = par.as_str().len();
            assert(n == utf8_len(par@));
            if n > SUMMARY_BYTES {
                break;
            }
        }
        i += 1;
    }
    let pv = chars_of(par.as_str());
    trim_chars(&pv)
}

/// The lines `ls`, each followed by a space, one after another.
pub open spec fn join_spaced(ls: Seq<Seq<char>>) -> Seq<char>
    decreases ls.len(),
{
    if ls.len() == 0 {
        Seq::<char>::empty()
    } else {
        join_spaced(ls.drop_last()) + ls.last() + seq![' ']
    }
}

/// `str::lines` splits at each newline: a text without one is a single
/// line (or none, when empty), and a line ended by a newline, less a `\r`
/// before it, comes first, followed by the lines of the rest.
pub proof fn law_lines(line: Seq<char>, rest: Seq<char>)
    requires
        !line.contains('\n'),
    ensures
        lines(line) == (if line.len() > 0 { seq![line] } else { Seq::<Seq<char>>::empty() }),
        lines(line + seq!['\n'] + rest) == seq![
            if line.len() > 0 && line.last() == '\r' { line.drop_last() } else { line },
        ] + lines(rest),
{
    let e = Seq::<char>::empty();
    let none = Seq::<Seq<char>>::empty();
    lemma_lines_line(line, e, none, e);
    assert(line + e =~= line);
    assert(e + line =~= line);
    let s = line + seq!['\n'] + rest;
    assert(s =~= line + (seq!['\n'] + rest));
    lemma_lines_line(line, seq!['\n'] + rest, none, e);
    assert((seq!['\n'] + rest).drop_first() =~= rest);
    lemma_lines_done(rest, seq![drop_cr(line)], e);
    assert(none.push(drop_cr(line)) =~= seq![drop_cr(line)]);
}

/// Characters other than a newline go into the unfinished line.
proof fn lemma_lines_line(line: Seq<char>, rest: Seq<char>, done: Seq<Seq<char>>, cur: Seq<char>)
    requires
        !line.contains('\n'),
    ensures
        lines_from(line + rest, done, cur) == lines_from(rest, done, cur + line),
    decreases line.len(),
{
    if line.len() > 0 {
        assert(line[0] != '\n') by {
            assert(line.contains(line[0]) || true);
            if line[0] == '\n' {
                assert(line.contains('\n'));
            }
        }
        let t = line.drop_first();
        assert(!t.contains('\n')) by {
            if t.contains('\n') {
                let k = choose|k: int| 0 <= k < t.len() && t[k] == '\n';
                assert(line[k + 1] == '\n');
            }
        }
        assert((line + rest).drop_first() =~= t + rest);
        assert((line + rest)[0] == line[0]);
        lemma_lines_line(t, rest, done, cur.push(line[0]));
        assert(cur.push(line[0]) + t =~= cur + line);
    } else {
        assert(line + rest =~= rest);
        assert(cur + line =~= cur);
    }
}

/// Lines already found stay in front of those still to come.
proof fn lemma_lines_done(s: Seq<char>, done: Seq<Seq<char>>, cur: Seq<char>)
    ensures
        lines_from(s, done, cur) == done + lines_from(s, Seq::<Seq<char>>::empty(), cur),
    decreases s.len(),
{
    let none = Seq::<Seq<char>>::empty();
    if s.len() == 0 {
        if cur.len() > 0 {
            assert(done.push(cur) =~= done + none.push(cur));
        } else {
            assert(done =~= done + none);
        }
    } else if s[0] == '\n' {
        lemma_lines_done(s.drop_first(), done.push(drop_cr(cur)), seq![]);
        lemma_lines_done(s.drop_first(), none.push(drop_cr(cur)), seq![]);
        assert(done.push(drop_cr(cur)) =~= done + none.push(drop_cr(cur)));
    } else {
        lemma_lines_done(s.drop_first(), done, cur.push(s[0]));
    }
}

/// The opening paragraph of a body is its first run of non-blank lines,
/// joined with a space after each and trimmed, up to and including the
/// line that takes it past `SUMMARY_BYTES` UTF-8 bytes: `s` is the first
/// non-blank line, `e` the first blank line after it (or the end), and
/// `t` where the paragraph stops.
pub proof fn law_opening_paragraph(body: Seq<char>, s: int, t: int, e: int)
    requires
        0 <= s <= t <= e <= lines(body).len(),
        forall|k: int| 0 <= k < s ==> trim(#[trigger] lines(body)[k]).len() == 0,
        s < e || s == lines(body).len(),
        forall|k: int| s <= k < e ==> trim(#[trigger] lines(body)[k]).len() > 0,
        e == lines(body).len() || trim(lines(body)[e]).len() == 0,
        forall|k: int| s < k < t ==> utf8_len(join_spaced(#[trigger] lines(body).subrange(s, k))) <= SUMMARY_BYTES,
        t == e || utf8_len(join_spaced(lines(body).subrange(s, t))) > SUMMARY_BYTES,
    ensures
        opening_paragraph(body) == trim(join_spaced(lines(body).subrange(s, t))),
{
    let ls = lines(body);
    assert(ls.skip(0) =~= ls);
    lemma_paragraph_skip(ls, 0, s);
    assert(ls.subrange(s, s) =~= Seq::<Seq<char>>::empty());
    lemma_paragraph_take(ls, s, t, e, s);
}

/// A body of one non-blank line has that line, trimmed, as its opening
/// paragraph.
pub proof fn law_one_line_summary(line: Seq<char>)
    requires
        !line.contains('\n'),
        trim(line).len() > 0,
    ensures
        opening_paragraph(line) == trim(line),
{
    law_lines(line, Seq::<char>::empty());
    let ls = lines(line);
    assert(line.len() > 0) by {
        if line.len() == 0 {
            assert(trim(line) =~= line);
        }
    }
    assert(ls =~= seq![line]);
    law_opening_paragraph(line, 0, 1, 1);
    assert(ls.subrange(0, 1) =~= seq![line]);
    assert(seq![line].drop_last() =~= Seq::<Seq<char>>::empty());
    assert(join_spaced(Seq::<Seq<char>>::empty()) == Seq::<char>::empty());
    assert(join_spaced(seq![line]) == join_spaced(Seq::<Seq<char>>::empty()) + line + seq![' ']);
    assert(join_spaced(seq![line]) =~= line.push(' '));
    lemma_trim_push_ws(line, ' ');
}

/// Blank lines before the paragraph are passed over.
proof fn lemma_paragraph_skip(ls: Seq<Seq<char>>, i: int, s: int)
    requires
        0 <= i <= s <= ls.len(),
        forall|k: int| 0 <= k < s ==> trim(#[trigger] ls[k]).len() == 0,
    ensures
        paragraph_from(ls.skip(i), false, seq![]) == paragraph_from(ls.skip(s), false, seq![]),
    decreases s - i,
{
    if i < s {
        assert(ls.skip(i)[0] == ls[i]);
        assert(ls.skip(i).drop_first() =~= ls.skip(i + 1));
        lemma_paragraph_skip(ls, i + 1, s);
    }
}

/// From line `i` of the paragraph on, the lines up to `t` are taken.
proof fn lemma_paragraph_take(ls: Seq<Seq<char>>, s: int, t: int, e: int, i: int)
    requires
        0 <= s <= i <= t <= e <= ls.len(),
        s < e || s == ls.len(),
        forall|k: int| s <= k < e ==> trim(#[trigger] ls[k]).len() > 0,
        e == ls.len() || trim(ls[e]).len() == 0,
        forall|k: int| s < k < t ==> utf8_len(join_spaced(#[trigger] ls.subrange(s, k))) <= SUMMARY_BYTES,
        t == e || utf8_len(join_spaced(ls.subrange(s, t))) > SUMMARY_BYTES,
        i < t || t == e,
        i > s || i < t || s == ls.len(),
    ensures
        paragraph_from(ls.skip(i), i > s, join_spaced(ls.subrange(s, i))) == join_spaced(ls.subrange(s, t)),
    decreases t - i,
{
    let par = join_spaced(ls.subrange(s, i));
    if i < t {
        assert(ls.skip(i)[0] == ls[i]);
        assert(ls.skip(i).drop_first() =~= ls.skip(i + 1));
        assert(trim(ls[i]).len() > 0);
        assert(ls.subrange(s, i + 1).drop_last() =~= ls.subrange(s, i));
        assert(ls.subrange(s, i + 1).last() == ls[i]);
        let p2 = par + ls[i] + seq![' '];
        assert(p2 == join_spaced(ls.subrange(s, i + 1)));
        if utf8_len(p2) > SUMMARY_BYTES {
            if i + 1 < t {
                assert(utf8_len(join_spaced(ls.subrange(s, i + 1))) <= SUMMARY_BYTES);
            }
        } else {
            lemma_paragraph_take(ls, s, t, e, i + 1);
        }
    } else {
        if e < ls.len() {
            assert(ls.skip(e)[0] == ls[e]);
        } else {
            assert(ls.skip(e).len() == 0);
        }
    }
}

/// Whitespace at the end makes no difference to the trimmed text.
proof fn lemma_trim_push_ws(x: Seq<char>, c: char)
    requires
        crate::text::is_ws(c),
    ensures
        trim(x.push(c)) == trim(x),
    decreases x.len(),
{
    if x.len() == 0 {
        assert(x.push(c).drop_first() =~= x);
        assert(crate::text::trim_start(x.push(c)) == crate::text::trim_start(x));
    } else if crate::text::is_ws(x[0]) {
        assert(x.push(c).drop_first() =~= x.drop_first().push(c));
        lemma_trim_push_ws(x.drop_first(), c);
    } else {
        assert(x.push(c)[0] == x[0]);
        assert(crate::text::trim_start(x.push(c)) == x.push(c));
        assert(x.push(c).drop_last() =~= x);
    }
}

} // verus!

verus! {

/// A trimmed sequence starts and ends with non-whitespace, and trimming
/// either end leaves it as it is.
proof fn lemma_trimmed(x: Seq<char>)
    requires
        trim(x) == x,
    ensures
        crate::text::trim_start(x) == x,
        crate::text::trim_end(x) == x,
        x.len() > 0 ==> !crate::text::is_ws(x[0]) && !crate::text::is_ws(x.last()),
{
    crate::html::lemma_trim_start_suffix(x);
    let a = crate::text::trim_start(x);
    crate::html::lemma_trim_end_prefix(a);
    assert(a.len() == x.len());
    assert(a =~= x) by {
        assert(x.subrange(0, x.len() as int) =~= x);
    }
    crate::html::lemma_trim_end_prefix(x);
}

/// A line break before trimmed text is trimmed away.
proof fn lemma_trim_after_newline(y: Seq<char>)
    requires
        trim(y) == y,
    ensures
        trim(seq!['\n'] + y) == y,
{
    lemma_trimmed(y);
    let z = seq!['\n'] + y;
    assert(z.drop_first() =~= y);
    assert(crate::text::trim_start(z) == crate::text::trim_start(y));
}

/// The text of a post file made of a front matter block `yaml` and a
/// `body`, the way posts are written.
pub open spec fn post_file(yaml: Seq<char>, body: Seq<char>) -> Seq<char> {
    fence() + seq!['\n'] + yaml + closing_fence() + seq!['\n'] + body
}

/// The characters of a post file, by position.
proof fn lemma_post_file_index(yaml: Seq<char>, body: Seq<char>)
    ensures
        ({
            let s = post_file(yaml, body);
            let k: int = 4 + yaml.len() as int;
            &&& s.len() == k + 5 + body.len()
            &&& s.subrange(0, 3) == fence()
            &&& forall|m: int| 0 <= m < yaml.len() + 1 ==> #[trigger] s[3 + m] == (seq!['\n'] + yaml)[m]
            &&& forall|m: int| 0 <= m < 4 ==> #[trigger] s[k + m] == closing_fence()[m]
            &&& s[k + 4] == '\n'
            &&& forall|m: int| 0 <= m < body.len() ==> #[trigger] s[k + 5 + m] == body[m]
        }),
{
    let s = post_file(yaml, body);
    assert(s.subrange(0, 3) =~= fence());
}

/// The end of a post file that trimming keeps.
pub open spec fn post_file_kept(yaml: Seq<char>, body: Seq<char>) -> int {
    if body.len() > 0 {
        post_file(yaml, body).len() as int
    } else {
        post_file(yaml, body).len() - 1
    }
}

/// Trimming a post file removes at most the line break after the closing fence.
proof fn lemma_post_file_trim(yaml: Seq<char>, body: Seq<char>)
    requires
        trim(body) == body,
    ensures
        trim(post_file(yaml, body)) == post_file(yaml, body).subrange(0, post_file_kept(yaml, body)),
{
    let s = post_file(yaml, body);
    let k: int = 4 + yaml.len() as int;
    let len = post_file_kept(yaml, body);
    lemma_post_file_index(yaml, body);
    lemma_trimmed(body);
    assert(s[0] == s.subrange(0, 3)[0]);
    assert(!crate::text::is_ws(s[0]));
    crate::text::lemma_trim_start_from(s, 0);
    assert(s.subrange(0, s.len() as int) =~= s);
    assert forall|q: int| len <= q < s.len() implies crate::text::is_ws(#[trigger] s[q]) by {
        assert(q == k + 4);
    }
    if body.len() > 0 {
        assert(s.last() == s[k + 5 + (body.len() - 1)]);
    } else {
        assert(s[len - 1] == s[k + 3]);
    }
    crate::text::lemma_trim_end_to(s, len);
}

/// No closing fence starts inside `\n` + block of a trimmed post file.
proof fn lemma_post_file_no_early_fence(yaml: Seq<char>, body: Seq<char>, m: int)
    requires
        find_from(seq!['\n'] + yaml, closing_fence(), 0) is None,
        3 <= m < 4 + yaml.len(),
    ensures
        !occurs_at(post_file(yaml, body).subrange(0, post_file_kept(yaml, body)), closing_fence(), m),
{
    let s = post_file(yaml, body);
    let t = s.subrange(0, post_file_kept(yaml, body));
    let ny = seq!['\n'] + yaml;
    let k: int = 4 + yaml.len() as int;
    lemma_post_file_index(yaml, body);
    crate::text::lemma_find_from(ny, closing_fence(), 0);
    if occurs_at(t, closing_fence(), m) {
        let w = t.subrange(m, m + 4);
        if m + 4 <= k {
            assert forall|j: int| 0 <= j < 4 implies ny.subrange(m - 3, m + 1)[j] == closing_fence()[j] by {
                assert(w[j] == t[m + j]);
                assert(t[m + j] == s[3 + (m - 3 + j)]);
            }
            assert(ny.subrange(m - 3, m + 1) =~= closing_fence());
            assert(occurs_at(ny, closing_fence(), m - 3));
        } else {
            assert(w[k - m] == t[k]);
            assert(t[k] == s[k + 0]);
        }
    }
}

/// A trimmed post file has a closing fence right after the block.
proof fn lemma_post_file_fence_at(yaml: Seq<char>, body: Seq<char>)
    ensures
        occurs_at(
            post_file(yaml, body).subrange(0, post_file_kept(yaml, body)),
            closing_fence(),
            4 + yaml.len() as int,
        ),
{
    let s = post_file(yaml, body);
    let t = s.subrange(0, post_file_kept(yaml, body));
    let k: int = 4 + yaml.len() as int;
    lemma_post_file_index(yaml, body);
    assert forall|j: int| 0 <= j < 4 implies t.subrange(k, k + 4)[j] == closing_fence()[j] by {
        assert(t.subrange(k, k + 4)[j] == s[k + j]);
    }
    assert(t.subrange(k, k + 4) =~= closing_fence());
}

/// In a trimmed post file the first closing fence after the opening one is
/// the one after the block.
proof fn lemma_post_file_find(yaml: Seq<char>, body: Seq<char>)
    requires
        find_from(seq!['\n'] + yaml, closing_fence(), 0) is None,
    ensures
        find_from(
            post_file(yaml, body).subrange(0, post_file_kept(yaml, body)),
            closing_fence(),
            3,
        ) == Some(4 + yaml.len() as int),
{
    let t = post_file(yaml, body).subrange(0, post_file_kept(yaml, body));
    let k: int = 4 + yaml.len() as int;
    lemma_post_file_fence_at(yaml, body);
    assert forall|m: int| 3 <= m < k implies !occurs_at(t, closing_fence(), m) by {
        lemma_post_file_no_early_fence(yaml, body, m);
    }
    crate::text::lemma_find_from_is(t, closing_fence(), 3, k);
}

/// Splitting gives back the block and the body of a post file, when both are
/// trimmed and the block holds no line that starts with `---`.
pub proof fn law_split_front_matter_roundtrip(yaml: Seq<char>, body: Seq<char>)
    requires
        trim(yaml) == yaml,
        trim(body) == body,
        find_from(seq!['\n'] + yaml, closing_fence(), 0) is None,
    ensures
        front_matter_split(post_file(yaml, body)) == Ok::<(Seq<char>, Seq<char>), FrontMatterError>(
            (yaml, body),
        ),
{
    let s = post_file(yaml, body);
    let t = s.subrange(0, post_file_kept(yaml, body));
    let k: int = 4 + yaml.len() as int;
    lemma_post_file_index(yaml, body);
    lemma_post_file_trim(yaml, body);
    lemma_post_file_find(yaml, body);
    assert(occurs_at(t, fence(), 0)) by {
        assert(t.subrange(0, 3) =~= s.subrange(0, 3));
    }
    assert(t.subrange(3, k) =~= seq!['\n'] + yaml) by {
        assert forall|m: int| 0 <= m < k - 3 implies t.subrange(3, k)[m] == (seq!['\n'] + yaml)[m] by {
            assert(t.subrange(3, k)[m] == s[3 + m]);
        }
    }
    lemma_trim_after_newline(yaml);
    assert(trim(s) == t);
    assert(find_from(t, closing_fence(), 3) == Some(k));
    let rest = t.subrange(k + 4, t.len() as int);
    assert(front_matter_split(s) == Ok::<(Seq<char>, Seq<char>), FrontMatterError>(
        (trim(t.subrange(3, k)), trim(rest)),
    ));
    if body.len() > 0 {
        assert(t.subrange(k + 4, t.len() as int) =~= seq!['\n'] + body) by {
            assert forall|m: int| 0 <= m < t.len() - k - 4 implies #[trigger] t.subrange(k + 4, t.len() as int)[m]
                == (seq!['\n'] + body)[m] by {
                if m > 0 {
                    assert(s[k + 5 + (m - 1)] == body[m - 1]);
                }
            }
        }
        lemma_trim_after_newline(body);
    } else {
        assert(t.subrange(k + 4, t.len() as int) =~= Seq::<char>::empty());
        assert(trim(Seq::<char>::empty()) == Seq::<char>::empty());
    }
    assert(trim(t.subrange(3, k)) == yaml);
    assert(trim(rest) == body);
}

} // verus!
