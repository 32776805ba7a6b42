//! Whole-site pieces: the root page that redirects to a language, the
//! search index, which posts a build includes, and the rebuild decisions of
//! the development server.

use vstd::prelude::*;
use crate::config::{default_build_options, BuildConfig, lang_code_to_bcp47};
use crate::content::{FrontMatter, PostRender};
use crate::html::{strip_html, stripped_text};

verus! {

/// The start of the redirect page, up to the language tests.
pub const REDIRECT_HEAD: &'static str = "<!DOCTYPE html>\n<html lang=\"en\">\n<head>\n<meta charset=\"UTF-8\">\n<meta name=\"viewport\" content=\"width=device-width,initial-scale=1.0\">\n<title>Redirecting...</title>\n<script>\nvar lang = navigator.language || navigator.userLanguage || '';\n";

/// What follows the language tests, up to the default language.
pub const REDIRECT_FALLBACK: &'static str = "\n  window.location.href = '/";

/// The end of the redirect page.
pub const REDIRECT_TAIL: &'static str = "/';\n</script>\n</head>\n<body>\n<p>Redirecting...</p>\n</body>\n</html>";

/// The start of a language test.
pub const CASE_OPEN: &'static str = "  if (lang.startsWith('";

/// Between the tag tested and the language's directory.
pub const CASE_MID: &'static str = "')) { window.location.href = '/";

/// The end of a language test.
pub const CASE_CLOSE: &'static str = "/'; }";

/// The line that sends a browser whose language starts with `lang` to `/lang/`.
pub open spec fn redirect_case(lang: Seq<char>) -> Seq<char> {
    CASE_OPEN@ + lang + CASE_MID@ + lang + CASE_CLOSE@
}

/// The language test lines of `langs`, one per line.
pub open spec fn redirect_cases(langs: Seq<String>) -> Seq<char>
    decreases langs.len(),
{
    if langs.len() == 0 {
        seq![]
    } else if langs.len() == 1 {
        redirect_case(langs[0]@)
    } else {
        redirect_cases(langs.drop_last()) + seq!['\n'] + redirect_case(langs.last()@)
    }
}

/// The root page: a script that sends the browser to the first language of
/// `langs` that its own language starts with, or else to `default`.
pub open spec fn redirect_html(langs: Seq<String>, default: Seq<char>) -> Seq<char> {
    REDIRECT_HEAD@ + redirect_cases(langs) + REDIRECT_FALLBACK@ + default + REDIRECT_TAIL@
}

/// The root page of the site.
pub fn redirect_page(languages: &Vec<String>, default: &str) -> (r: String)
    ensures
        r@ == redirect_html(languages@, default@),
{
    let mut out = String::new();
    out.append(REDIRECT_HEAD);
    let ghost head = out@;
    let mut i: usize = 0;
    assert(languages@.take(0) =~= Seq::<String>::empty());
    while i < languages.len()
        invariant
            i <= languages.len(),
            head == REDIRECT_HEAD@,
            out@ == head + redirect_cases(languages@.take(i as int)),
        decreases languages.len() - i,
    {
        let lang = languages[i].as_str();
        if i > 0 {
            crate::text::push_char(&mut out, '\n');
        }
        out.append(CASE_OPEN);
        out.append(lang_code_to_bcp47(lang));
        out.append(CASE_MID);
        out.append(lang);
        out.append(CASE_CLOSE);
        proof {
            let t = languages@.take(i + 1);
            assert(t.drop_last() =~= languages@.take(i as int));
            assert(t.last() == languages@[i as int]);
            if i == 0 {
                assert(languages@.take(0).len() == 0);
                assert(out@ =~= head + redirect_case(lang@));
            } else {
                assert(out@ =~= head + (redirect_cases(t.drop_last()) + seq!['\n'] + redirect_case(lang@)));
            }
        }
        i += 1;
    }
    assert(languages@.take(i as int) =~= languages@);
    out.append(REDIRECT_FALLBACK);
    out.append(default);
    out.append(REDIRECT_TAIL);
    assert(out@ =~= redirect_html(languages@, default@));
    out
}

/// An entry of the search index.
pub struct SearchIndexEntry {
    pub title: String,
    pub slug: String,
    pub date: String,
    pub tags: Vec<String>,
    pub summary: String,
    pub content: String,
}

/// `e` is the search entry of post `p`: its title, slug, date and tags, and
/// the plain text of its summary and content.
pub open spec fn is_search_entry(e: SearchIndexEntry, p: PostRender) -> bool {
    &&& e.title == p.title
    &&& e.slug == p.slug
    &&& e.date == p.date
    &&& e.tags@ == p.tags@
    &&& e.summary@ == stripped_text(p.summary_html@)
    &&& e.content@ == stripped_text(p.content_html@)
}

/// The search index: one entry per post, in order.
pub fn search_index(posts: &Vec<PostRender>) -> (r: Vec<SearchIndexEntry>)
    ensures
        r@.len() == posts@.len(),
        forall|k: int| 0 <= k < r@.len() ==> is_search_entry(#[trigger] r@[k], posts@[k]),
{
    let mut out: Vec<SearchIndexEntry> = Vec::new();
    let mut i: usize = 0;
    while i < posts.len()
        invariant
            i <= posts.len(),
            out@.len() == i,
            forall|k: int| 0 <= k < i ==> is_search_entry(#[trigger] out@[k], posts@[k]),
        decreases posts.len() - i,
    {
        let p = &posts[i];
        let tags = p.tags.clone();
        assert(tags@ =~= p.tags@);
        out.push(SearchIndexEntry {
            title: p.title.clone(),
            slug: p.slug.clone(),
            date: p.date.clone(),
            tags,
            summary: strip_html(p.summary_html.as_str()),
            content: strip_html(p.content_html.as_str()),
        });
        i += 1;
    }
    out
}

/// What one language's build produced.
pub struct BuildSummary {
    pub posts: usize,
    pub tags: usize,
    pub duration: std::time::Duration,
}

impl BuildConfig {
    /// A post with this front matter belongs in the build: it is not a
    /// draft, or drafts are included.
    pub open spec fn admits(self, front_matter: FrontMatter) -> bool {
        !front_matter.draft || self.include_drafts
    }

    /// Whether a post with this front matter belongs in the build.
    pub fn includes(&self, front_matter: &FrontMatter) -> (r: bool)
        ensures
            r == self.admits(*front_matter),
    {
        !front_matter.draft || self.include_drafts
    }
}

/// Under the build options that a configuration without them gets, a draft
/// is left out of the build; only `include_drafts = true` lets it in.
pub proof fn law_default_build_skips_drafts(b: BuildConfig, front_matter: FrontMatter)
    requires
        default_build_options(b),
        front_matter.draft,
    ensures
        !b.admits(front_matter),
{
}

/// The quiet time, in milliseconds, after which a file change triggers a rebuild.
pub const REBUILD_QUIET_MILLIS: u128 = 300;

/// A file change that comes `elapsed_nanos` after the previous one starts a
/// rebuild only when more than `REBUILD_QUIET_MILLIS` have passed.
pub fn rebuild_due(elapsed_nanos: u128) -> (r: bool)
    ensures
        r == (elapsed_nanos > REBUILD_QUIET_MILLIS * 1_000_000),
{
    elapsed_nanos > REBUILD_QUIET_MILLIS * 1_000_000
}

/// What the reload channel of the development server delivered.
pub enum ReloadSignal {
    Message(String),
    /// Messages were missed because the listener fell behind.
    Lagged,
    Closed,
}

/// What the reload event stream does next.
pub enum StreamStep {
    Send(String),
    Wait,
    End,
}

/// The reload stream forwards each message, waits on after missed ones,
/// and ends when the channel closes.
pub fn reload_step(signal: ReloadSignal) -> (r: StreamStep)
    ensures
        match (signal, r) {
            (ReloadSignal::Message(m), StreamStep::Send(s)) => s == m,
            (ReloadSignal::Lagged, StreamStep::Wait) => true,
            (ReloadSignal::Closed, StreamStep::End) => true,
            _ => false,
        },
{
    match signal {
        ReloadSignal::Message(m) => StreamStep::Send(m),
        ReloadSignal::Lagged => StreamStep::Wait,
        ReloadSignal::Closed => StreamStep::End,
    }
}

} // verus!
