//! The RSS feed of a language's posts.

use rss::{ChannelBuilder, GuidBuilder, ItemBuilder};
use vstd::prelude::*;
use crate::config::{Config, LanguageConfig};
use crate::content::PostRender;
use crate::date::{chrono_ymd, names_a_day, parse_ymd, reads_as_day, rfc2822_midnight, rfc2822_midnight_utc};
use crate::html::{strip_html, stripped_text};
use crate::text::push_char;

verus! {

/// One entry of the feed.
pub struct FeedItem {
    pub title: String,
    /// The post's address; also the entry's permanent id.
    pub link: String,
    pub description: String,
    pub pub_date: String,
}

/// A feed entry as title, link, description and date.
pub open spec fn item_view(i: FeedItem) -> (Seq<char>, Seq<char>, Seq<char>, Seq<char>) {
    (i.title@, i.link@, i.description@, i.pub_date@)
}

/// The XML that the rss crate writes for a channel with these fields, whose
/// items have a title, a link, a description, a permalink guid equal to
/// the link, and a publication date.
pub uninterp spec fn rss_channel_xml(
    title: Seq<char>,
    link: Seq<char>,
    description: Seq<char>,
    language: Seq<char>,
    items: Seq<(Seq<char>, Seq<char>, Seq<char>, Seq<char>)>,
) -> Seq<char>;

/// Builds an `rss::Channel` with `ChannelBuilder` and `ItemBuilder` and
/// writes it with `Channel::write_to` into a byte buffer, read as UTF-8.
/// `write_to` fails only when its writer does, and a `Vec<u8>` never does;
/// the bytes are UTF-8, as the crate's own `Display` for `Channel` relies
/// on. Claimed: the text depends on the fields alone.
#[verifier::external_body]
fn write_rss_channel(
    title: &str,
    link: &str,
    description: &str,
    language: &str,
    items: &Vec<FeedItem>,
) -> (r: String)
    ensures
        r@ == rss_channel_xml(
            title@,
            link@,
            description@,
            language@,
            items@.map_values(|i: FeedItem| item_view(i)),
        ),
{
    let items: Vec<rss::Item> = items.iter().map(|p| ItemBuilder::default().title(p.title.clone())
        .link(p.link.clone()).description(p.description.clone()).guid(
            GuidBuilder::default().value(p.link.clone()).permalink(true).build(),
        ).pub_date(p.pub_date.clone()).build()).collect();
    let channel = ChannelBuilder::default().title(title).link(link).description(description)
        .language(language.to_string()).items(items).build();
    String::from_utf8(channel.write_to(Vec::new()).unwrap()).unwrap()
}

/// The feed could not be written.
#[derive(Debug, Clone, Copy, PartialEq, Eq, Structural)]
pub enum FeedError {
    /// The date of the post at this position is not a `%Y-%m-%d` date of a
    /// year from 0 to 9999.
    BadDate(usize),
}

/// A post's date can stand in the feed: it parses as `%Y-%m-%d` and its
/// year is from 0 to 9999, the years that RFC 2822 can write.
pub open spec fn feed_date_ok(date: Seq<char>) -> bool {
    chrono_ymd(date) matches Some(t) && 0 <= t.0 <= 9999
}

/// `default/posts/slug/`: the address of a post in the feed.
pub open spec fn post_link(default: Seq<char>, slug: Seq<char>) -> Seq<char> {
    default + seq!['/', 'p', 'o', 's', 't', 's', '/'] + slug + seq!['/']
}

/// The feed entry of a post.
pub open spec fn feed_entry(p: PostRender, default: Seq<char>) -> (Seq<char>, Seq<char>, Seq<char>, Seq<char>) {
    let t = chrono_ymd(p.date@).unwrap();
    (p.title@, post_link(default, p.slug@), stripped_text(p.summary_html@), rfc2822_midnight(t.0 as int, t.1 as int, t.2 as int))
}

/// The feed of `posts`: the channel's title and description are those of
/// the language, its link is `default/default` and its language the
/// default language; each post gives one entry.
pub open spec fn feed_xml(config: Config, posts: Seq<PostRender>, lang_config: LanguageConfig) -> Seq<char> {
    let d = config.site.default@;
    rss_channel_xml(
        lang_config.title@,
        d + seq!['/'] + d,
        lang_config.description@,
        d,
        posts.map_values(|p: PostRender| feed_entry(p, d)),
    )
}

/// The feed's channel carries the language's title and description, the
/// link `default/default` and the default language, and holds one entry
/// per post, in order: the post's title, its address
/// `default/posts/slug/` (also its permanent id), its summary as plain
/// text, and its day at midnight UTC in RFC 2822 form.
pub proof fn law_feed_fields(
    config: Config,
    posts: Seq<PostRender>,
    lang_config: LanguageConfig,
    items: Seq<(Seq<char>, Seq<char>, Seq<char>, Seq<char>)>,
)
    requires
        items.len() == posts.len(),
        forall|k: int|
            0 <= k < posts.len() ==> #[trigger] items[k] == (
                posts[k].title@,
                config.site.default@ + "/posts/"@ + posts[k].slug@ + "/"@,
                stripped_text(posts[k].summary_html@),
                rfc2822_midnight(
                    chrono_ymd(posts[k].date@).unwrap().0 as int,
                    chrono_ymd(posts[k].date@).unwrap().1 as int,
                    chrono_ymd(posts[k].date@).unwrap().2 as int,
                ),
            ),
    ensures
        feed_xml(config, posts, lang_config) == rss_channel_xml(
            lang_config.title@,
            config.site.default@ + "/"@ + config.site.default@,
            lang_config.description@,
            config.site.default@,
            items,
        ),
{
    let d = config.site.default@;
    reveal_strlit("/posts/");
    reveal_strlit("/");
    assert(d + seq!['/'] + d =~= d + "/"@ + d);
    assert forall|k: int| 0 <= k < posts.len() implies #[trigger] items[k] == feed_entry(posts[k], d) by {
        assert(post_link(d, posts[k].slug@) =~= d + "/posts/"@ + posts[k].slug@ + "/"@);
    }
    assert(posts.map_values(|p: PostRender| feed_entry(p, d)) =~= items);
}

/// Writes the RSS feed of `posts`. Each post's date must parse; see
/// `try_generate_rss` for a version that checks.
pub fn generate_rss(config: &Config, posts: &Vec<PostRender>, lang_config: &LanguageConfig) -> (r: Result<String, FeedError>)
    requires
        forall|k: int| 0 <= k < posts@.len() ==> feed_date_ok(#[trigger] posts@[k].date@),
    ensures
        r matches Ok(x) && x@ == feed_xml(*config, posts@, *lang_config),
        forall|k: int, y: i32, m: u32, d: u32|
            0 <= k < posts@.len() && #[trigger] reads_as_day(posts@[k].date@, y, m, d)
                ==> chrono_ymd(posts@[k].date@) == Some((y, m, d)),
{
    let default = config.site.default.as_str();
    let mut items: Vec<FeedItem> = Vec::new();
    let mut i: usize = 0;
    while i < posts.len()
        invariant
            i <= posts.len(),
            default@ == config.site.default@,
            forall|k: int| 0 <= k < posts@.len() ==> feed_date_ok(#[trigger] posts@[k].date@),
            items@.len() == i,
            forall|k: int| 0 <= k < i ==> item_view(#[trigger] items@[k]) == feed_entry(posts@[k], default@),
            forall|k: int, y: i32, m: u32, d: u32|
                0 <= k < i && #[trigger] reads_as_day(posts@[k].date@, y, m, d)
                    ==> chrono_ymd(posts@[k].date@) == Some((y, m, d)),
        decreases posts.len() - i,
    {
        let post = &posts[i];
        assert(feed_date_ok(posts@[i as int].date@));
        let (y, m, d) = match parse_ymd(post.date.as_str()) {
            Some(t) => t,
            None => {
                assert(false);
                (0, 1, 1)
            },
        };
        let mut link = String::new();
        link.append(default);
        link.append("/posts/");
        proof {
            reveal_strlit("/posts/");
        }
        link.append(post.slug.as_str());
        push_char(&mut link, '/');
        let item = FeedItem {
            title: post.title.clone(),
            link,
            description: strip_html(post.summary_html.as_str()),
            pub_date: rfc2822_midnight_utc(y, m, d),
        };
        assert(item.link@ =~= post_link(default@, post.slug@));
        items.push(item);
        i += 1;
    }
    let mut channel_link = String::new();
    channel_link.append(default);
    push_char(&mut channel_link, '/');
    channel_link.append(default);
    assert(items@.map_values(|i: FeedItem| item_view(i)) =~= posts@.map_values(|p: PostRender| feed_entry(p, default@)));
    assert(channel_link@ =~= default@ + seq!['/'] + default@);
    Ok(write_rss_channel(
        lang_config.title.as_str(),
        channel_link.as_str(),
        lang_config.description.as_str(),
        default,
        &items,
    ))
}

/// Writes the RSS feed of `posts`, after checking that every post's date
/// parses; the first post whose date does not is reported. Posts whose
/// dates are the `%Y-%m-%d` text of real days of years 0 to 9999, as
/// `Date::format_ymd` writes them, always pass the check.
pub fn try_generate_rss(config: &Config, posts: &Vec<PostRender>, lang_config: &LanguageConfig) -> (r: Result<String, FeedError>)
    ensures
        r is Ok <==> forall|k: int| 0 <= k < posts@.len() ==> feed_date_ok(#[trigger] posts@[k].date@),
        r matches Ok(x) ==> x@ == feed_xml(*config, posts@, *lang_config),
        r matches Err(FeedError::BadDate(k)) ==> k < posts@.len() && !feed_date_ok(posts@[k as int].date@)
            && forall|j: int| 0 <= j < k ==> feed_date_ok(#[trigger] posts@[j].date@),
        (forall|k: int| 0 <= k < posts@.len() ==> #[trigger] names_a_day(posts@[k].date@)) ==> r is Ok,
{
    let mut i: usize = 0;
    while i < posts.len()
        invariant
            i <= posts.len(),
            forall|k: int| 0 <= k < i ==> feed_date_ok(#[trigger] posts@[k].date@),
        decreases posts.len() - i,
    {
        match parse_ymd(posts[i].date.as_str()) {
            Some((y, _m, _d)) => {
                if y < 0 || y > 9999 {
                    assert(!names_a_day(posts@[i as int].date@));
                    return Err(FeedError::BadDate(i));
                }
            },
            None => {
                assert(!names_a_day(posts@[i as int].date@));
                return Err(FeedError::BadDate(i));
            },
        }
        i += 1;
    }
    generate_rss(config, posts, lang_config)
}

} // verus!
