//! Plain text from HTML (tag stripping) and HTML escaping of text.

use vstd::prelude::*;
use crate::text::{chars_of, is_ws, push_char, trim, trim_chars, trim_end, trim_start};

verus! {

/// The characters of `s` outside `<...>` tags, given whether `s` starts
/// inside a tag. A `<` opens a tag and a `>` closes it; neither is kept.
pub open spec fn strip_tags_from(s: Seq<char>, in_tag: bool) -> Seq<char>
    decreases s.len(),
{
    if s.len() == 0 {
        seq![]
    } else if s[0] == '<' {
        strip_tags_from(s.drop_first(), true)
    } else if s[0] == '>' {
        strip_tags_from(s.drop_first(), false)
    } else if !in_tag {
        seq![s[0]] + strip_tags_from(s.drop_first(), in_tag)
    } else {
        strip_tags_from(s.drop_first(), in_tag)
    }
}

/// The text of an HTML fragment: tags removed, then trimmed.
pub open spec fn stripped_text(html: Seq<char>) -> Seq<char> {
    trim(strip_tags_from(html, false))
}

/// `s` holds neither `<` nor `>`.
pub open spec fn no_angle(s: Seq<char>) -> bool {
    forall|k: int| 0 <= k < s.len() ==> s[k] != '<' && s[k] != '>'
}

/// The plain text of an HTML fragment: everything between `<` and `>` is
/// dropped, with the brackets, and the rest is trimmed.
pub fn strip_html(html: &str) -> (r: String)
    ensures
        r@ == stripped_text(html@),
        no_angle(r@),
{
    let v = chars_of(html);
    let mut out: Vec<char> = Vec::new();
    let mut in_tag = false;
    let mut i: usize = 0;
    assert(v@.skip(0) =~= v@);
    while i < v.len()
        invariant
            i <= v.len(),
            v@ == html@,
            strip_tags_from(v@, false) == out@ + strip_tags_from(v@.skip(i as int), in_tag),
        decreases v.len() - i,
    {
        let c = v[i];
        proof {
            let rest = v@.skip(i as int);
            assert(rest[0] == c);
            assert(rest.drop_first() =~= v@.skip(i + 1));
        }
        if c == '<' {
            in_tag = true;
        } else if c == '>' {
            in_tag = false;
        } else if !in_tag {
            proof {
                let rest = v@.skip(i as int);
                assert(out@.push(c) + strip_tags_from(rest.drop_first(), in_tag) =~= out@ + (
                seq![c] + strip_tags_from(rest.drop_first(), in_tag)));
            }
            out.push(c);
        }
        i += 1;
    }
    assert(v@.skip(i as int) =~= Seq::<char>::empty());
    assert(out@ + Seq::<char>::empty() =~= out@);
    let r = trim_chars(&out);
    proof {
        lemma_strip_tags_no_angle(html@, false);
        lemma_trim_keeps_no_angle(strip_tags_from(html@, false));
    }
    r
}

/// Stripping never leaves a bracket behind.
pub proof fn lemma_strip_tags_no_angle(s: Seq<char>, in_tag: bool)
    ensures
        no_angle(strip_tags_from(s, in_tag)),
    decreases s.len(),
{
    if s.len() > 0 {
        lemma_strip_tags_no_angle(s.drop_first(), true);
        lemma_strip_tags_no_angle(s.drop_first(), false);
        lemma_strip_tags_no_angle(s.drop_first(), in_tag);
    }
}

/// Text without brackets passes through stripping unchanged.
pub proof fn lemma_strip_tags_plain(s: Seq<char>)
    requires
        no_angle(s),
    ensures
        strip_tags_from(s, false) == s,
    decreases s.len(),
{
    if s.len() > 0 {
        assert(s[0] != '<' && s[0] != '>');
        lemma_strip_tags_plain(s.drop_first());
        assert(seq![s[0]] + s.drop_first() =~= s);
    }
}

/// `trim_end(x)` is a prefix of `x` that ends in a non-whitespace character.
pub proof fn lemma_trim_end_prefix(x: Seq<char>)
    ensures
        trim_end(x).len() <= x.len(),
        trim_end(x) == x.subrange(0, trim_end(x).len() as int),
        trim_end(x).len() > 0 ==> !is_ws(trim_end(x).last()),
        x.len() > 0 && !is_ws(x[0]) ==> trim_end(x).len() > 0,
    decreases x.len(),
{
    if x.len() > 0 && is_ws(x.last()) {
        lemma_trim_end_prefix(x.drop_last());
        let t = trim_end(x.drop_last());
        assert(x.drop_last().subrange(0, t.len() as int) =~= x.subrange(0, t.len() as int));
        if x.len() > 0 && !is_ws(x[0]) {
            assert(x.len() > 1);
            assert(x.drop_last()[0] == x[0]);
        }
    } else {
        assert(x.subrange(0, x.len() as int) =~= x);
    }
}

/// `trim_start(x)` is a suffix of `x` that starts with a non-whitespace character.
pub proof fn lemma_trim_start_suffix(x: Seq<char>)
    ensures
        trim_start(x).len() <= x.len(),
        trim_start(x) == x.subrange(x.len() - trim_start(x).len(), x.len() as int),
        trim_start(x).len() > 0 ==> !is_ws(trim_start(x)[0]),
    decreases x.len(),
{
    if x.len() > 0 && is_ws(x[0]) {
        lemma_trim_start_suffix(x.drop_first());
        let t = trim_start(x.drop_first());
        assert(x.drop_first().subrange(x.drop_first().len() - t.len(), x.drop_first().len() as int)
            =~= x.subrange(x.len() - t.len(), x.len() as int));
    } else {
        assert(x.subrange(0, x.len() as int) =~= x);
    }
}

/// Trimming keeps a string free of brackets.
pub proof fn lemma_trim_keeps_no_angle(s: Seq<char>)
    requires
        no_angle(s),
    ensures
        no_angle(trim(s)),
{
    lemma_trim_start_suffix(s);
    let a = trim_start(s);
    assert forall|k: int| 0 <= k < a.len() implies a[k] != '<' && a[k] != '>' by {
        assert(a[k] == s[s.len() - a.len() + k]);
    }
    lemma_trim_end_prefix(a);
    let b = trim_end(a);
    assert forall|k: int| 0 <= k < b.len() implies b[k] != '<' && b[k] != '>' by {
        assert(b[k] == a[k]);
    }
}

/// Trimming twice is trimming once.
pub proof fn lemma_trim_idempotent(s: Seq<char>)
    ensures
        trim(trim(s)) == trim(s),
{
    let a = trim_start(s);
    lemma_trim_start_suffix(s);
    lemma_trim_end_prefix(a);
    let t = trim_end(a);
    if t.len() > 0 {
        assert(t[0] == a[0]);
        assert(trim_start(t) == t);
        lemma_trim_end_prefix(t);
        assert(!is_ws(t.last()));
        assert(trim_end(t) == t);
    } else {
        assert(trim_start(t) == t);
        assert(trim_end(t) == t);
    }
}

/// Stripping the text of a fragment again changes nothing: the result of
/// `strip_html` holds no tags and no surrounding whitespace.
pub proof fn law_strip_html_idempotent(html: Seq<char>)
    ensures
        stripped_text(stripped_text(html)) == stripped_text(html),
{
    let t = stripped_text(html);
    lemma_strip_tags_no_angle(html, false);
    lemma_trim_keeps_no_angle(strip_tags_from(html, false));
    lemma_strip_tags_plain(t);
    lemma_trim_idempotent(strip_tags_from(html, false));
}

// ---------------------------------------------------------------------------
// Escaping
// ---------------------------------------------------------------------------

/// How one character is written in escaped HTML.
pub open spec fn escape_char(c: char) -> Seq<char> {
    if c == '&' {
        seq!['&', 'a', 'm', 'p', ';']
    } else if c == '<' {
        seq!['&', 'l', 't', ';']
    } else if c == '>' {
        seq!['&', 'g', 't', ';']
    } else if c == '"' {
        seq!['&', 'q', 'u', 'o', 't', ';']
    } else {
        seq![c]
    }
}

/// `s` with `&`, `<`, `>` and `"` replaced by their entities.
pub open spec fn escape_html(s: Seq<char>) -> Seq<char>
    decreases s.len(),
{
    if s.len() == 0 {
        seq![]
    } else {
        escape_html(s.drop_last()) + escape_char(s.last())
    }
}

fn push_escaped(out: &mut String, c: char)
    ensures
        final(out)@ == old(out)@ + escape_char(c),
{
    if c == '&' {
        push_char(out, '&');
        push_char(out, 'a');
        push_char(out, 'm');
        push_char(out, 'p');
        push_char(out, ';');
    } else if c == '<' {
        push_char(out, '&');
        push_char(out, 'l');
        push_char(out, 't');
        push_char(out, ';');
    } else if c == '>' {
        push_char(out, '&');
        push_char(out, 'g');
        push_char(out, 't');
        push_char(out, ';');
    } else if c == '"' {
        push_char(out, '&');
        push_char(out, 'q');
        push_char(out, 'u');
        push_char(out, 'o');
        push_char(out, 't');
        push_char(out, ';');
    } else {
        push_char(out, c);
    }
    assert(final(out)@ =~= old(out)@ + escape_char(c));
}

/// Appends `escape_html(s)` to `out`.
pub fn push_escaped_str(out: &mut String, s: &str)
    ensures
        final(out)@ == old(out)@ + escape_html(s@),
{
    let v = chars_of(s);
    let ghost start = out@;
    let mut i: usize = 0;
    assert(v@.take(0) =~= Seq::<char>::empty());
    assert(out@ =~= start + escape_html(v@.take(0)));
    while i < v.len()
        invariant
            i <= v.len(),
            v@ == s@,
            out@ == start + escape_html(v@.take(i as int)),
        decreases v.len() - i,
    {
        push_escaped(out, v[i]);
        proof {
            let t = v@.take(i + 1);
            assert(t.drop_last() =~= v@.take(i as int));
            assert(t.last() == v@[i as int]);
        }
        i += 1;
    }
    assert(v@.take(v.len() as int) =~= v@);
}

/// `s` with `&`, `<`, `>` and `"` written as `&amp;`, `&lt;`, `&gt;` and `&quot;`.
pub fn html_escape(s: &str) -> (r: String)
    ensures
        r@ == escape_html(s@),
{
    let mut out = String::new();
    push_escaped_str(&mut out, s);
    assert(out@ =~= escape_html(s@));
    out
}

/// `s` holds none of the characters that escaping rewrites.
pub open spec fn no_markup(s: Seq<char>) -> bool {
    forall|k: int| 0 <= k < s.len() ==> s[k] != '&' && s[k] != '<' && s[k] != '>' && s[k] != '"'
}

/// Escaped text holds no `<`, `>` or `"`, so it can stand inside an element
/// or a quoted attribute; and text without special characters is left as it is.
pub proof fn law_escape_html(s: Seq<char>)
    ensures
        no_angle(escape_html(s)),
        forall|k: int| 0 <= k < escape_html(s).len() ==> escape_html(s)[k] != '"',
        no_markup(s) ==> escape_html(s) == s,
    decreases s.len(),
{
    if s.len() > 0 {
        law_escape_html(s.drop_last());
        let a = escape_html(s.drop_last());
        let b = escape_char(s.last());
        assert forall|k: int| 0 <= k < (a + b).len() implies (a + b)[k] != '<' && (a + b)[k] != '>'
            && (a + b)[k] != '"' by {
            if k >= a.len() {
                assert((a + b)[k] == b[k - a.len()]);
            }
        }
        if no_markup(s) {
            assert(no_markup(s.drop_last()));
            assert(s.drop_last().push(s.last()) =~= s);
        }
    }
}

} // verus!
