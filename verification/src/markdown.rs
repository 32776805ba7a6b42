//! Markdown to HTML: pulldown-cmark renders the text, except code blocks,
//! which syntect highlights, or which are written as escaped `<pre>` blocks
//! when syntect has no syntax for their language.

use pulldown_cmark::{CodeBlockKind, Event, Tag, TagEnd};
use vstd::prelude::*;
use crate::content::{Post, summary_paragraph, opening_paragraph};
use crate::html::{escape_html, push_escaped_str};

verus! {

#[verifier::external_type_specification]
#[verifier::external_body]
pub struct ExSyntaxSet(syntect::parsing::SyntaxSet);

#[verifier::external_type_specification]
#[verifier::external_body]
pub struct ExThemeSet(syntect::highlighting::ThemeSet);

/// An event of pulldown-cmark's parse, as far as rendering tells events apart.
#[derive(Debug)]
pub enum MdEvent {
    /// A code block starts; the info string of a fenced block, or nothing
    /// for an indented one.
    CodeStart(String),
    /// A code block ends.
    CodeEnd,
    /// A text node.
    Text(String),
    /// Any other event.
    Other,
}

/// The events that pulldown-cmark's `Parser` yields for `text` with all
/// options on.
pub uninterp spec fn cmark_events(text: Seq<char>) -> Seq<MdEvent>;

/// The HTML that pulldown-cmark's `push_html` writes for the events of
/// `text` at the positions `picks`, in that order.
pub uninterp spec fn cmark_html(text: Seq<char>, picks: Seq<usize>) -> Seq<char>;

/// Whether `SyntaxSet::find_syntax_by_token` finds a syntax for `token` in
/// syntect's default syntaxes.
pub uninterp spec fn syntect_has_syntax(token: Seq<char>) -> bool;

/// What `syntect::html::highlighted_html_for_string` gives for `code` with
/// the default syntax found for `token` and the default theme named
/// `theme`: `None` when highlighting fails.
pub uninterp spec fn syntect_highlight(token: Seq<char>, theme: Seq<char>, code: Seq<char>) -> Option<String>;

/// The names of the themes that `ThemeSet::load_defaults` holds, as its
/// documentation lists them.
pub open spec fn is_default_theme(name: Seq<char>) -> bool {
    ||| name == "base16-ocean.dark"@
    ||| name == "base16-eighties.dark"@
    ||| name == "base16-mocha.dark"@
    ||| name == "base16-ocean.light"@
    ||| name == "InspiredGitHub"@
    ||| name == "Solarized (dark)"@
    ||| name == "Solarized (light)"@
}

/// The first of the default themes in name order.
pub open spec fn first_default_theme() -> Seq<char> {
    "InspiredGitHub"@
}

/// The theme that code is highlighted with when `name` is asked for: that
/// theme where there is one of that name, else the first.
pub open spec fn effective_theme(name: Seq<char>) -> Seq<char> {
    if is_default_theme(name) { name } else { first_default_theme() }
}

/// Parses `text` with `Parser::new_ext(text, Options::all())` and tells its
/// events apart. Claimed: the list depends on `text` alone.
#[verifier::external_body]
fn cmark_event_list(text: &str) -> (r: Vec<MdEvent>)
    ensures
        r@ == cmark_events(text@),
{
    pulldown_cmark::Parser::new_ext(text, pulldown_cmark::Options::all()).map(|e| match e {
        Event::Start(Tag::CodeBlock(CodeBlockKind::Fenced(info))) => MdEvent::CodeStart(info.to_string()),
        Event::Start(Tag::CodeBlock(CodeBlockKind::Indented)) => MdEvent::CodeStart(String::new()),
        Event::End(TagEnd::CodeBlock) => MdEvent::CodeEnd,
        Event::Text(t) => MdEvent::Text(t.to_string()),
        _ => MdEvent::Other,
    }).collect()
}

/// Parses `text` as `cmark_event_list` does and renders the events at
/// `picks` with `pulldown_cmark::html::push_html`. Claimed: the HTML depends
/// on `text` and `picks` alone.
#[verifier::external_body]
fn cmark_html_of(text: &str, picks: &Vec<usize>) -> (r: String)
    requires
        forall|k: int| 0 <= k < picks@.len() ==> #[trigger] picks@[k] < cmark_events(text@).len(),
    ensures
        r@ == cmark_html(text@, picks@),
{
    let events: Vec<Event> = pulldown_cmark::Parser::new_ext(text, pulldown_cmark::Options::all()).collect();
    let mut out = String::new();
    pulldown_cmark::html::push_html(&mut out, picks.iter().map(|&i| events[i].clone()));
    out
}

/// `SyntaxSet::find_syntax_by_token(token).is_some()`. Claimed: the answer
/// depends on `token` alone, which holds because a `MarkdownRenderer` only
/// ever holds syntect's default syntaxes.
#[verifier::external_body]
fn has_syntax(syntaxes: &syntect::parsing::SyntaxSet, token: &str) -> (r: bool)
    ensures
        r == syntect_has_syntax(token@),
{
    syntaxes.find_syntax_by_token(token).is_some()
}

/// `BTreeMap::contains_key` on the `themes` of a `ThemeSet`. Claimed: the
/// answer is whether `name` is one of the seven names that the
/// documentation of `ThemeSet::load_defaults` lists, which holds because a
/// `MarkdownRenderer` only ever holds syntect's default themes.
#[verifier::external_body]
fn has_theme(themes: &syntect::highlighting::ThemeSet, name: &str) -> (r: bool)
    ensures
        r == is_default_theme(name@),
{
    themes.themes.contains_key(name)
}

/// The first key of the `themes` of a `ThemeSet`. Claimed: of the default
/// themes, whose map orders names bytewise, that is `InspiredGitHub`.
#[verifier::external_body]
fn first_theme_name(themes: &syntect::highlighting::ThemeSet) -> (r: String)
    ensures
        r@ == first_default_theme(),
{
    themes.themes.keys().next().unwrap().clone()
}

/// `syntect::html::highlighted_html_for_string` on `code`, with the syntax
/// that `SyntaxSet::find_syntax_by_token` finds for `token` and the theme
/// named `theme`; a failure gives `None`. Both must exist. Claimed: the
/// outcome depends on the three texts alone, as the sets are syntect's
/// defaults.
#[verifier::external_body]
fn highlight(
    syntaxes: &syntect::parsing::SyntaxSet,
    themes: &syntect::highlighting::ThemeSet,
    token: &str,
    theme: &str,
    code: &str,
) -> (r: Option<String>)
    requires
        syntect_has_syntax(token@),
        is_default_theme(theme@),
    ensures
        r == syntect_highlight(token@, theme@, code@),
{
    let syntax = syntaxes.find_syntax_by_token(token).unwrap();
    syntect::html::highlighted_html_for_string(code, syntaxes, syntax, &themes.themes[theme]).ok()
}

/// `SyntaxSet::load_defaults_newlines`.
#[verifier::external_body]
fn default_syntaxes() -> syntect::parsing::SyntaxSet {
    syntect::parsing::SyntaxSet::load_defaults_newlines()
}

/// `ThemeSet::load_defaults`.
#[verifier::external_body]
fn default_themes() -> syntect::highlighting::ThemeSet {
    syntect::highlighting::ThemeSet::load_defaults()
}

/// Renders markdown to HTML with syntect's default syntaxes and themes.
pub struct MarkdownRenderer {
    syntax_set: syntect::parsing::SyntaxSet,
    theme_set: syntect::highlighting::ThemeSet,
    theme_name: String,
}

/// `<pre><code class="language-`.
pub open spec fn pre_open() -> Seq<char> {
    "<pre><code class=\"language-"@
}

/// `">`.
pub open spec fn pre_mid() -> Seq<char> {
    "\">"@
}

/// `</code></pre>`.
pub open spec fn pre_close() -> Seq<char> {
    "</code></pre>"@
}

/// The HTML of a code block in language `lang` holding `code`: syntect's
/// highlighting with the theme that `theme` stands for; nothing when
/// highlighting fails; an escaped `<pre>` block when syntect has no syntax
/// for the language.
pub open spec fn code_block_html(lang: Seq<char>, theme: Seq<char>, code: Seq<char>) -> Seq<char> {
    if !syntect_has_syntax(lang) {
        pre_open() + escape_html(lang) + pre_mid() + escape_html(code) + pre_close()
    } else {
        match syntect_highlight(lang, effective_theme(theme), code) {
            Some(h) => h@,
            None => Seq::<char>::empty(),
        }
    }
}

/// The HTML of pending events, if there are any.
pub open spec fn flush(text: Seq<char>, out: Seq<char>, pending: Seq<usize>) -> Seq<char> {
    if pending.len() > 0 { out + cmark_html(text, pending) } else { out }
}

/// The rendering of `text` from event `i` on, given the state so far:
/// whether a code block is open, its language and text, the positions of
/// events waiting to be rendered by pulldown-cmark, and the HTML written.
/// Events outside code blocks wait; a code block's start renders them, text
/// inside a code block is collected, other events inside one are dropped,
/// and a code block's end writes the block.
pub open spec fn render_from(
    text: Seq<char>,
    theme: Seq<char>,
    evs: Seq<MdEvent>,
    i: int,
    in_code: bool,
    lang: Seq<char>,
    code: Seq<char>,
    pending: Seq<usize>,
    out: Seq<char>,
) -> Seq<char>
    decreases evs.len() - i,
{
    if i < 0 || i >= evs.len() {
        flush(text, out, pending)
    } else {
        match evs[i] {
            MdEvent::CodeStart(l) => render_from(
                text,
                theme,
                evs,
                i + 1,
                true,
                l@,
                Seq::<char>::empty(),
                Seq::<usize>::empty(),
                flush(text, out, pending),
            ),
            MdEvent::CodeEnd => render_from(
                text,
                theme,
                evs,
                i + 1,
                false,
                lang,
                code,
                pending,
                out + code_block_html(lang, theme, code),
            ),
            MdEvent::Text(t) => if in_code {
                render_from(text, theme, evs, i + 1, in_code, lang, code + t@, pending, out)
            } else {
                render_from(text, theme, evs, i + 1, in_code, lang, code, pending.push(i as usize), out)
            },
            MdEvent::Other => if in_code {
                render_from(text, theme, evs, i + 1, in_code, lang, code, pending, out)
            } else {
                render_from(text, theme, evs, i + 1, in_code, lang, code, pending.push(i as usize), out)
            },
        }
    }
}

/// The HTML of markdown `text` rendered with theme `theme`.
pub open spec fn rendered(text: Seq<char>, theme: Seq<char>) -> Seq<char> {
    render_from(
        text,
        theme,
        cmark_events(text),
        0,
        false,
        Seq::<char>::empty(),
        Seq::<char>::empty(),
        Seq::<usize>::empty(),
        Seq::<char>::empty(),
    )
}

impl MarkdownRenderer {
    /// The name of the highlighting theme.
    pub closed spec fn theme(&self) -> Seq<char> {
        self.theme_name@
    }

    /// A renderer that highlights code with theme `theme_name`.
    pub fn new(theme_name: &str) -> (r: Self)
        ensures
            r.theme() == theme_name@,
    {
        MarkdownRenderer {
            syntax_set: default_syntaxes(),
            theme_set: default_themes(),
            theme_name: theme_name.to_owned(),
        }
    }

    /// The HTML of markdown `text`.
    pub fn render(&self, text: &str) -> (r: String)
        ensures
            r@ == rendered(text@, self.theme()),
    {
        let evs = cmark_event_list(text);
        let ghost theme = self.theme_name@;
        let mut out = String::new();
        let mut pending: Vec<usize> = Vec::new();
        let mut in_code = false;
        let mut lang = String::new();
        let mut code = String::new();
        let mut i: usize = 0;
        while i < evs.len()
            invariant
                i <= evs.len(),
                evs@ == cmark_events(text@),
                theme == self.theme(),
                forall|k: int| 0 <= k < pending@.len() ==> #[trigger] pending@[k] < i,
                rendered(text@, theme) == render_from(
                    text@,
                    theme,
                    evs@,
                    i as int,
                    in_code,
                    lang@,
                    code@,
                    pending@,
                    out@,
                ),
            decreases evs.len() - i,
        {
            match &evs[i] {
                MdEvent::CodeStart(l) => {
                    let ghost flushed = flush(text@, out@, pending@);
                    if pending.len() > 0 {
                        let h = cmark_html_of(text, &pending);
                        out.append(h.as_str());
                        pending = Vec::new();
                    }
                    assert(out@ == flushed);
                    assert(pending@ == Seq::<usize>::empty());
                    in_code = true;
                    lang = l.clone();
                    code = String::new();
                    assert(lang@ == l@);
                    assert(code@ == Seq::<char>::empty());
                },
                MdEvent::CodeEnd => {
                    let ghost old_out = out@;
                    in_code = false;
                    if has_syntax(&self.syntax_set, lang.as_str()) {
                        let highlighted = if has_theme(&self.theme_set, self.theme_name.as_str()) {
                            highlight(&self.syntax_set, &self.theme_set, lang.as_str(), self.theme_name.as_str(), code.as_str())
                        } else {
                            let first = first_theme_name(&self.theme_set);
                            proof {
                                reveal_strlit("InspiredGitHub");
                            }
                            highlight(&self.syntax_set, &self.theme_set, lang.as_str(), first.as_str(), code.as_str())
                        };
                        if let Some(h) = highlighted {
                            out.append(h.as_str());
                        }
                    } else {
                        out.append("<pre><code class=\"language-");
                        push_escaped_str(&mut out, lang.as_str());
                        out.append("\">");
                        push_escaped_str(&mut out, code.as_str());
                        out.append("</code></pre>");
                    }
                    assert(out@ =~= old_out + code_block_html(lang@, theme, code@));
                },
                MdEvent::Text(t) => {
                    if in_code {
                        code.append(t.as_str());
                    } else {
                        pending.push(i);
                    }
                },
                MdEvent::Other => {
                    if !in_code {
                        pending.push(i);
                    }
                },
            }
            i += 1;
        }
        if pending.len() > 0 {
            let h = cmark_html_of(text, &pending);
            out.append(h.as_str());
        }
        out
    }
}

/// The HTML summary of a post: its front matter summary rendered, or else
/// its opening paragraph rendered.
pub open spec fn summary_html(p: Post, theme: Seq<char>) -> Seq<char> {
    match p.front_matter.summary {
        Some(s) => rendered(s@, theme),
        None => rendered(opening_paragraph(p.body_raw@), theme),
    }
}

/// The HTML summary of a post.
pub fn generate_summary(renderer: &MarkdownRenderer, post: &Post) -> (r: String)
    ensures
        r@ == summary_html(*post, renderer.theme()),
{
    match &post.front_matter.summary {
        Some(s) => renderer.render(s.as_str()),
        None => {
            let p = summary_paragraph(post.body_raw.as_str());
            renderer.render(p.as_str())
        },
    }
}

/// The positions `0..n`.
pub open spec fn all_positions(n: int) -> Seq<usize> {
    Seq::new(n as nat, |k: int| k as usize)
}

/// A document without code blocks renders as pulldown-cmark renders it:
/// all its events in order, or nothing when it has none.
pub proof fn law_plain_markdown(text: Seq<char>, theme: Seq<char>)
    requires
        forall|k: int|
            0 <= k < cmark_events(text).len() ==> !(#[trigger] cmark_events(text)[k] is CodeStart)
                && !(cmark_events(text)[k] is CodeEnd),
        cmark_events(text).len() <= usize::MAX,
    ensures
        rendered(text, theme) == if cmark_events(text).len() > 0 {
            cmark_html(text, all_positions(cmark_events(text).len() as int))
        } else {
            Seq::<char>::empty()
        },
{
    let evs = cmark_events(text);
    assert(all_positions(0) =~= Seq::<usize>::empty());
    lemma_plain_prefix(text, theme, 0, evs.len() as int);
    let n = evs.len() as int;
    assert(Seq::<char>::empty() + cmark_html(text, all_positions(n)) =~= cmark_html(text, all_positions(n)));
}

/// The HTML before a code block: pulldown-cmark's rendering of the first
/// `n` events, or nothing when there are none.
pub open spec fn plain_prefix_html(text: Seq<char>, n: int) -> Seq<char> {
    if n > 0 { cmark_html(text, all_positions(n)) } else { Seq::<char>::empty() }
}

/// A document whose events are plain ones followed by one code block
/// holding one text node renders as pulldown-cmark's HTML of the plain
/// events, then the block's HTML; when syntect knows no syntax for the
/// block's language, that is an escaped `<pre>` block, the language and
/// the code each escaped once.
pub proof fn law_text_then_code_block(text: Seq<char>, theme: Seq<char>, n: int, lang: Seq<char>, code: Seq<char>)
    requires
        0 <= n,
        cmark_events(text).len() == n + 3,
        n + 3 <= usize::MAX,
        forall|k: int|
            0 <= k < n ==> !(#[trigger] cmark_events(text)[k] is CodeStart) && !(cmark_events(text)[k] is CodeEnd),
        cmark_events(text)[n] matches MdEvent::CodeStart(l) && l@ == lang,
        cmark_events(text)[n + 1] matches MdEvent::Text(t) && t@ == code,
        cmark_events(text)[n + 2] is CodeEnd,
    ensures
        rendered(text, theme) == plain_prefix_html(text, n) + code_block_html(lang, theme, code),
        !syntect_has_syntax(lang) ==> rendered(text, theme) == plain_prefix_html(text, n) + pre_open()
            + escape_html(lang) + pre_mid() + escape_html(code) + pre_close(),
{
    let evs = cmark_events(text);
    let e = Seq::<char>::empty();
    assert(all_positions(0) =~= Seq::<usize>::empty());
    lemma_plain_prefix(text, theme, 0, n);
    let out = flush(text, e, all_positions(n));
    assert(out == plain_prefix_html(text, n)) by {
        if n > 0 {
            assert(e + cmark_html(text, all_positions(n)) =~= cmark_html(text, all_positions(n)));
        }
    }
    assert(e + code =~= code);
    let block = code_block_html(lang, theme, code);
    assert(render_from(text, theme, evs, n + 3, false, lang, code, Seq::<usize>::empty(), out + block)
        == out + block);
    assert(render_from(text, theme, evs, n + 2, true, lang, code, Seq::<usize>::empty(), out)
        == out + block);
    assert(render_from(text, theme, evs, n + 1, true, lang, e, Seq::<usize>::empty(), out)
        == out + block);
    if !syntect_has_syntax(lang) {
        assert(out + block =~= plain_prefix_html(text, n) + pre_open() + escape_html(lang) + pre_mid()
            + escape_html(code) + pre_close());
    }
}

/// Rendering runs over plain events without writing anything: they wait,
/// in order, for pulldown-cmark.
proof fn lemma_plain_prefix(text: Seq<char>, theme: Seq<char>, i: int, n: int)
    requires
        0 <= i <= n <= cmark_events(text).len(),
        n <= usize::MAX,
        forall|k: int|
            0 <= k < n ==> !(#[trigger] cmark_events(text)[k] is CodeStart) && !(cmark_events(text)[k] is CodeEnd),
    ensures
        render_from(
            text,
            theme,
            cmark_events(text),
            i,
            false,
            Seq::<char>::empty(),
            Seq::<char>::empty(),
            all_positions(i),
            Seq::<char>::empty(),
        ) == render_from(
            text,
            theme,
            cmark_events(text),
            n,
            false,
            Seq::<char>::empty(),
            Seq::<char>::empty(),
            all_positions(n),
            Seq::<char>::empty(),
        ),
    decreases n - i,
{
    let evs = cmark_events(text);
    if i < n {
        assert(all_positions(i).push(i as usize) =~= all_positions(i + 1));
        lemma_plain_prefix(text, theme, i + 1, n);
        assert(!(evs[i] is CodeStart) && !(evs[i] is CodeEnd));
    }
}

/// The text that event `e` adds to a code block: its text, if it is a
/// text node.
pub open spec fn text_of(e: MdEvent) -> Seq<char> {
    match e {
        MdEvent::Text(t) => t@,
        _ => Seq::<char>::empty(),
    }
}

/// The text nodes of `evs[i..j]`, one after another.
pub open spec fn texts_in(evs: Seq<MdEvent>, i: int, j: int) -> Seq<char>
    decreases j - i,
{
    if j <= i {
        Seq::<char>::empty()
    } else {
        texts_in(evs, i, j - 1) + text_of(evs[j - 1])
    }
}

/// A code block stands alone: where `evs[i]` opens a block that
/// `evs[j]` closes, with no block start or end between, rendering from
/// `i` on writes what was pending, then the block's HTML made of that
/// block's own language and text nodes, and goes on after `j` with nothing
/// pending. Whatever language and text earlier blocks left behind plays no
/// part.
pub proof fn law_code_block_stands_alone(
    text: Seq<char>,
    theme: Seq<char>,
    i: int,
    j: int,
    in_code: bool,
    lang: Seq<char>,
    code: Seq<char>,
    pending: Seq<usize>,
    out: Seq<char>,
)
    requires
        0 <= i < j < cmark_events(text).len(),
        cmark_events(text)[i] is CodeStart,
        cmark_events(text)[j] is CodeEnd,
        forall|k: int|
            i < k < j ==> !(#[trigger] cmark_events(text)[k] is CodeStart) && !(cmark_events(text)[k] is CodeEnd),
    ensures
        ({
            let evs = cmark_events(text);
            let l = evs[i]->CodeStart_0@;
            let c = texts_in(evs, i + 1, j);
            render_from(text, theme, evs, i, in_code, lang, code, pending, out) == render_from(
                text,
                theme,
                evs,
                j + 1,
                false,
                l,
                c,
                Seq::<usize>::empty(),
                flush(text, out, pending) + code_block_html(l, theme, c),
            )
        }),
{
    let evs = cmark_events(text);
    let l = evs[i]->CodeStart_0@;
    let f = flush(text, out, pending);
    lemma_inside_block(text, theme, i, j, i + 1, l, f);
}

/// Inside a block, text nodes gather into its code and nothing is written
/// until its end.
proof fn lemma_inside_block(text: Seq<char>, theme: Seq<char>, i: int, j: int, k: int, l: Seq<char>, out: Seq<char>)
    requires
        0 <= i < k <= j < cmark_events(text).len(),
        cmark_events(text)[j] is CodeEnd,
        forall|m: int|
            i < m < j ==> !(#[trigger] cmark_events(text)[m] is CodeStart) && !(cmark_events(text)[m] is CodeEnd),
    ensures
        render_from(
            text,
            theme,
            cmark_events(text),
            k,
            true,
            l,
            texts_in(cmark_events(text), i + 1, k),
            Seq::<usize>::empty(),
            out,
        ) == render_from(
            text,
            theme,
            cmark_events(text),
            j + 1,
            false,
            l,
            texts_in(cmark_events(text), i + 1, j),
            Seq::<usize>::empty(),
            out + code_block_html(l, theme, texts_in(cmark_events(text), i + 1, j)),
        ),
    decreases j - k,
{
    let evs = cmark_events(text);
    if k < j {
        let c = texts_in(evs, i + 1, k);
        assert(texts_in(evs, i + 1, k + 1) == c + text_of(evs[k]));
        assert(!(evs[k] is CodeStart) && !(evs[k] is CodeEnd));
        if evs[k] is Other {
            assert(c + text_of(evs[k]) =~= c);
        }
        lemma_inside_block(text, theme, i, j, k + 1, l, out);
    }
}

/// The HTML of code blocks `j..` of `langs` and `codes`, one after another.
pub open spec fn blocks_html(theme: Seq<char>, langs: Seq<Seq<char>>, codes: Seq<Seq<char>>, j: int) -> Seq<char>
    decreases langs.len() - j,
{
    if j < 0 || j >= langs.len() {
        Seq::<char>::empty()
    } else {
        code_block_html(langs[j], theme, codes[j]) + blocks_html(theme, langs, codes, j + 1)
    }
}

/// `evs[n..]` is a run of code blocks, each a start in language
/// `langs[j]`, one text node `codes[j]` and an end.
pub open spec fn code_blocks_after(evs: Seq<MdEvent>, n: int, langs: Seq<Seq<char>>, codes: Seq<Seq<char>>) -> bool {
    &&& codes.len() == langs.len()
    &&& evs.len() == n + 3 * langs.len()
    &&& forall|j: int|
        0 <= j < langs.len() ==> ((#[trigger] evs[n + 3 * j]) matches MdEvent::CodeStart(l) && l@ == langs[j])
    &&& forall|j: int|
        0 <= j < langs.len() ==> ((#[trigger] evs[n + 3 * j + 1]) matches MdEvent::Text(t) && t@ == codes[j])
    &&& forall|j: int| 0 <= j < langs.len() ==> (#[trigger] evs[n + 3 * j + 2]) is CodeEnd
}

/// A document of plain events followed by any number of code blocks, each
/// holding one text node, renders as pulldown-cmark's HTML of the plain
/// events, then each block's HTML made of that block's language and code
/// alone, in order.
pub proof fn law_text_then_code_blocks(
    text: Seq<char>,
    theme: Seq<char>,
    n: int,
    langs: Seq<Seq<char>>,
    codes: Seq<Seq<char>>,
)
    requires
        0 <= n,
        cmark_events(text).len() <= usize::MAX,
        forall|k: int|
            0 <= k < n ==> !(#[trigger] cmark_events(text)[k] is CodeStart) && !(cmark_events(text)[k] is CodeEnd),
        code_blocks_after(cmark_events(text), n, langs, codes),
    ensures
        rendered(text, theme) == plain_prefix_html(text, n) + blocks_html(theme, langs, codes, 0),
{
    let evs = cmark_events(text);
    let e = Seq::<char>::empty();
    assert(all_positions(0) =~= Seq::<usize>::empty());
    lemma_plain_prefix(text, theme, 0, n);
    lemma_blocks_from(text, theme, n, langs, codes, 0, e, e, all_positions(n), e);
    assert(flush(text, e, all_positions(n)) == plain_prefix_html(text, n)) by {
        if n > 0 {
            assert(e + cmark_html(text, all_positions(n)) =~= cmark_html(text, all_positions(n)));
        }
    }
}

/// From the start of block `j` on, a run of code blocks writes what was
/// pending, then the blocks' HTML.
proof fn lemma_blocks_from(
    text: Seq<char>,
    theme: Seq<char>,
    n: int,
    langs: Seq<Seq<char>>,
    codes: Seq<Seq<char>>,
    j: int,
    lang: Seq<char>,
    code: Seq<char>,
    pending: Seq<usize>,
    out: Seq<char>,
)
    requires
        0 <= n,
        0 <= j <= langs.len(),
        code_blocks_after(cmark_events(text), n, langs, codes),
    ensures
        render_from(text, theme, cmark_events(text), n + 3 * j, false, lang, code, pending, out) == flush(
            text,
            out,
            pending,
        ) + blocks_html(theme, langs, codes, j),
    decreases langs.len() - j,
{
    let evs = cmark_events(text);
    if j == langs.len() {
        assert(flush(text, out, pending) + blocks_html(theme, langs, codes, j) =~= flush(text, out, pending));
    } else {
        let i = n + 3 * j;
        assert(evs[n + 3 * j] matches MdEvent::CodeStart(l) && l@ == langs[j]);
        assert(evs[n + 3 * j + 1] matches MdEvent::Text(t) && t@ == codes[j]);
        assert(evs[n + 3 * j + 2] is CodeEnd);
        assert forall|k: int| i < k < i + 2 implies !(#[trigger] evs[k] is CodeStart) && !(evs[k] is CodeEnd) by {
            assert(k == i + 1);
        }
        law_code_block_stands_alone(text, theme, i, i + 2, false, lang, code, pending, out);
        assert(texts_in(evs, i + 1, i + 1) =~= Seq::<char>::empty());
        assert(texts_in(evs, i + 1, i + 2) =~= codes[j]);
        let out2 = flush(text, out, pending) + code_block_html(langs[j], theme, codes[j]);
        assert(i + 3 == n + 3 * (j + 1));
        lemma_blocks_from(text, theme, n, langs, codes, j + 1, langs[j], codes[j], Seq::<usize>::empty(), out2);
        assert(flush(text, out2, Seq::<usize>::empty()) == out2);
        assert(out2 + blocks_html(theme, langs, codes, j + 1) =~= flush(text, out, pending) + blocks_html(
            theme,
            langs,
            codes,
            j,
        ));
    }
}

} // verus!
