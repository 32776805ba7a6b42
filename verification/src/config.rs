//! Site configuration: the values that `config.toml` holds, their defaults,
//! and which languages a build covers.

use vstd::prelude::*;
use crate::text::str_eq;

verus! {

/// The whole site configuration.
pub struct Config {
    pub site: SiteConfig,
    pub author: AuthorConfig,
    pub build: BuildConfig,
    pub comment: Option<CommentConfig>,
    /// The text of each language, by language code; where a code occurs
    /// more than once, the first entry for it is the one used.
    pub languages: Vec<(String, LanguageConfig)>,
}

/// Which languages the site has, and which one the root redirects to by default.
pub struct SiteConfig {
    pub languages: Vec<String>,
    pub default: String,
}

/// The interface text of one language.
pub struct LanguageConfig {
    pub title: String,
    pub description: String,
    pub nav_home: String,
    pub nav_tags: String,
    pub nav_about: String,
    pub nav_search: String,
    pub read_more: String,
    pub tags_title: String,
    pub comment_title: String,
    pub pagination_prev: String,
    pub pagination_next: String,
    pub search_empty: String,
    pub announcements_title: String,
    pub stats_posts: String,
    pub stats_tags: String,
    pub stats_words: String,
    pub no_posts: String,
    pub stats_title: String,
    pub footer_copyright: Option<String>,
    pub announcements: Vec<Announcement>,
}

/// A notice shown on the index page.
pub struct Announcement {
    pub title: String,
    pub content: String,
    pub date: Option<String>,
    pub icon: Option<String>,
}

/// The site's author.
pub struct AuthorConfig {
    pub name: String,
    pub email: Option<String>,
}

/// Build options.
pub struct BuildConfig {
    pub posts_per_page: usize,
    pub include_drafts: bool,
    pub syntax_theme: String,
}

/// Settings of the giscus comment widget.
pub struct CommentConfig {
    pub enable: bool,
    pub repo: String,
    pub repo_id: String,
    pub category: String,
    pub category_id: String,
    pub mapping: String,
    pub lang: String,
}

/// The languages a site has when the configuration names none: Chinese and English.
pub fn default_languages() -> (r: Vec<String>)
    ensures
        r@.len() == 2,
        r@[0]@ == "zh"@,
        r@[1]@ == "en"@,
{
    let mut v: Vec<String> = Vec::new();
    v.push("zh".to_owned());
    v.push("en".to_owned());
    v
}

/// The default language: Chinese.
pub fn default_lang() -> (r: String)
    ensures
        r@ == "zh"@,
{
    "zh".to_owned()
}

/// The default language of the comment widget.
pub fn default_comment_lang() -> (r: String)
    ensures
        r@ == "zh-CN"@,
{
    "zh-CN".to_owned()
}

/// The default number of posts on an index page.
pub fn default_posts_per_page() -> (r: usize)
    ensures
        r == 10,
{
    10
}

/// The default of the options that are on unless switched off.
pub fn default_true() -> (r: bool)
    ensures
        r,
{
    true
}

/// The default label of the about page.
pub fn default_nav_about() -> (r: String)
    ensures
        r@ == "关于"@,
{
    "关于".to_owned()
}

/// The default heading of the announcements.
pub fn default_announcements_title() -> (r: String)
    ensures
        r@ == "公告"@,
{
    "公告".to_owned()
}

/// The default syntax highlighting theme.
pub fn default_syntax_theme() -> (r: String)
    ensures
        r@ == "base16-ocean.dark"@,
{
    "base16-ocean.dark".to_owned()
}

/// The default way the comment widget maps pages to discussions.
pub fn default_mapping() -> (r: String)
    ensures
        r@ == "pathname"@,
{
    "pathname".to_owned()
}

/// The build options that a `config.toml` without them gives: ten posts to
/// an index page, drafts left out, and the `base16-ocean.dark` theme.
pub open spec fn default_build_options(b: BuildConfig) -> bool {
    &&& b.posts_per_page == 10
    &&& !b.include_drafts
    &&& b.syntax_theme@ == "base16-ocean.dark"@
}

impl Default for BuildConfig {
    fn default() -> (r: Self)
        ensures
            default_build_options(r),
    {
        BuildConfig {
            posts_per_page: default_posts_per_page(),
            include_drafts: false,
            syntax_theme: default_syntax_theme(),
        }
    }
}

impl Default for SiteConfig {
    fn default() -> (r: Self)
        ensures
            r.languages@.len() == 2,
            r.languages@[0]@ == "zh"@,
            r.languages@[1]@ == "en"@,
            r.default@ == "zh"@,
    {
        SiteConfig { languages: default_languages(), default: default_lang() }
    }
}

/// The position of the first entry for language `code`, searching from `from`.
pub open spec fn language_index_from(
    entries: Seq<(String, LanguageConfig)>,
    code: Seq<char>,
    from: int,
) -> Option<int>
    decreases entries.len() - from,
{
    if from < 0 || from >= entries.len() {
        None
    } else if entries[from].0@ == code {
        Some(from)
    } else {
        language_index_from(entries, code, from + 1)
    }
}

/// The position of the entry for language `code`.
pub open spec fn language_index(entries: Seq<(String, LanguageConfig)>, code: Seq<char>) -> Option<
    int,
> {
    language_index_from(entries, code, 0)
}

/// The languages that a build covers, in the order the site lists them:
/// those of `langs` that have an entry.
pub open spec fn built_languages(langs: Seq<String>, entries: Seq<(String, LanguageConfig)>) -> Seq<
    Seq<char>,
>
    decreases langs.len(),
{
    if langs.len() == 0 {
        seq![]
    } else {
        let rest = built_languages(langs.drop_last(), entries);
        if language_index(entries, langs.last()@) is Some {
            rest.push(langs.last()@)
        } else {
            rest
        }
    }
}

impl Config {
    /// The position of the text of language `code`, if the configuration has it.
    pub fn language_position(&self, code: &str) -> (r: Option<usize>)
        ensures
            r matches Some(i) ==> language_index(self.languages@, code@) == Some(i as int) && i
                < self.languages.len(),
            r is None ==> language_index(self.languages@, code@) is None,
    {
        let mut i: usize = 0;
        while i < self.languages.len()
            invariant
                i <= self.languages.len(),
                language_index(self.languages@, code@) == language_index_from(
                    self.languages@,
                    code@,
                    i as int,
                ),
            decreases self.languages.len() - i,
        {
            if str_eq(self.languages[i].0.as_str(), code) {
                return Some(i);
            }
            i += 1;
        }
        None
    }

    /// The text of language `code`, if the configuration has it.
    pub fn language_config(&self, code: &str) -> (r: Option<&LanguageConfig>)
        ensures
            r matches Some(c) ==> language_index(self.languages@, code@) matches Some(i) && *c
                == self.languages@[i].1,
            r is None ==> language_index(self.languages@, code@) is None,
    {
        match self.language_position(code) {
            Some(i) => Some(&self.languages[i].1),
            None => None,
        }
    }

    /// The languages to build: each language of `site.languages` that has
    /// an entry in `languages`, in order. Languages without text are skipped.
    pub fn languages_to_build(&self) -> (r: Vec<String>)
        ensures
            r@.map_values(|s: String| s@) == built_languages(self.site.languages@, self.languages@),
    {
        let mut out: Vec<String> = Vec::new();
        let mut i: usize = 0;
        while i < self.site.languages.len()
            invariant
                i <= self.site.languages.len(),
                out@.map_values(|s: String| s@) == built_languages(
                    self.site.languages@.take(i as int),
                    self.languages@,
                ),
            decreases self.site.languages.len() - i,
        {
            let lang = &self.site.languages[i];
            let ghost before = out@.map_values(|s: String| s@);
            proof {
                let t = self.site.languages@.take(i + 1);
                assert(t.drop_last() =~= self.site.languages@.take(i as int));
                assert(t.last() == *lang);
            }
            if self.language_position(lang.as_str()).is_some() {
                out.push(lang.clone());
                assert(out@.map_values(|s: String| s@) =~= before.push(lang@));
            }
            i += 1;
        }
        assert(self.site.languages@.take(i as int) =~= self.site.languages@);
        out
    }
}

/// The language tag that browsers report for a site language code. Codes
/// are passed through: `zh` and `en` are already tags.
pub fn lang_code_to_bcp47(lang: &str) -> (r: &str)
    ensures
        r@ == lang@,
{
    lang
}

} // verus!
