use stellaris::config::{
    default_announcements_title, default_comment_lang, default_lang, default_languages,
    default_mapping, default_nav_about, default_posts_per_page, default_syntax_theme,
    default_true, lang_code_to_bcp47, AuthorConfig, BuildConfig, Config, LanguageConfig,
    SiteConfig,
};
use stellaris::content::{FrontMatter, Post, PostRender};
use stellaris::date::Date;
use stellaris::feed::{try_generate_rss, FeedError};
use stellaris::paging::{index_pages, index_stats, page_count, page_url_string};
use stellaris::site::{rebuild_due, redirect_page, reload_step, search_index, ReloadSignal, StreamStep};
use stellaris::tags::{collect_render_tags, collect_tags, posts_with_tag};

fn lang_config(title: &str) -> LanguageConfig {
    LanguageConfig {
        title: title.to_string(),
        description: "desc".to_string(),
        nav_home: String::new(),
        nav_tags: String::new(),
        nav_about: String::new(),
        nav_search: String::new(),
        read_more: String::new(),
        tags_title: String::new(),
        comment_title: String::new(),
        pagination_prev: String::new(),
        pagination_next: String::new(),
        search_empty: String::new(),
        announcements_title: String::new(),
        stats_posts: String::new(),
        stats_tags: String::new(),
        stats_words: String::new(),
        no_posts: String::new(),
        stats_title: String::new(),
        footer_copyright: None,
        announcements: Vec::new(),
    }
}

fn config() -> Config {
    Config {
        site: SiteConfig { languages: vec!["zh".to_string(), "fr".to_string(), "en".to_string()], default: "zh".to_string() },
        author: AuthorConfig { name: "Me".to_string(), email: None },
        build: BuildConfig::default(),
        comment: None,
        languages: vec![("en".to_string(), lang_config("EN")), ("zh".to_string(), lang_config("ZH"))],
    }
}

fn render(slug: &str, date: &str, tags: &[&str], words: usize) -> PostRender {
    PostRender {
        title: format!("T {}", slug),
        slug: slug.to_string(),
        date: date.to_string(),
        date_iso: date.to_string(),
        tags: tags.iter().map(|t| t.to_string()).collect(),
        content_html: "<p>Body <em>text</em></p>".to_string(),
        summary_html: "<p>Sum &amp; more</p>".to_string(),
        summary: String::new(),
        word_count: words,
    }
}

fn post(slug: &str, tags: &[&str]) -> Post {
    Post {
        slug: slug.to_string(),
        front_matter: FrontMatter {
            title: slug.to_string(),
            date: Date::from_ymd(2024, 1, 1).unwrap(),
            tags: tags.iter().map(|t| t.to_string()).collect(),
            draft: false,
            summary: None,
        },
        body_raw: "abc".to_string(),
        body_html: String::new(),
        summary_html: String::new(),
    }
}

#[test]
fn defaults() {
    assert_eq!(default_languages(), vec!["zh", "en"]);
    assert_eq!(default_lang(), "zh");
    assert_eq!(default_comment_lang(), "zh-CN");
    assert_eq!(default_posts_per_page(), 10);
    assert!(default_true());
    assert_eq!(default_nav_about(), "关于");
    assert_eq!(default_announcements_title(), "公告");
    assert_eq!(default_syntax_theme(), "base16-ocean.dark");
    assert_eq!(default_mapping(), "pathname");
    let b = BuildConfig::default();
    assert_eq!((b.posts_per_page, b.include_drafts, b.syntax_theme.as_str()), (10, false, "base16-ocean.dark"));
    let s = SiteConfig::default();
    assert_eq!(s.languages, vec!["zh", "en"]);
    assert_eq!(s.default, "zh");
}

#[test]
fn languages_to_build_skip_missing_text() {
    let c = config();
    assert_eq!(c.languages_to_build(), vec!["zh", "en"]);
    assert_eq!(c.language_config("en").unwrap().title, "EN");
    assert!(c.language_config("fr").is_none());
    assert_eq!(lang_code_to_bcp47("zh"), "zh");
}

#[test]
fn tag_table_counts_in_name_order() {
    let posts = vec![post("a", &["rust", "diy"]), post("b", &["rust"]), post("c", &[]), post("d", &["随笔", "diy", "rust"])];
    let tags = collect_tags(&posts);
    let got: Vec<(&str, usize)> = tags.iter().map(|t| (t.name.as_str(), t.count)).collect();
    assert_eq!(got, vec![("diy", 2), ("rust", 3), ("随笔", 1)]);
    let renders = vec![render("a", "2024-01-01", &["b", "a", "b"], 1)];
    let rt = collect_render_tags(&renders);
    let got: Vec<(&str, usize)> = rt.iter().map(|t| (t.name.as_str(), t.count)).collect();
    assert_eq!(got, vec![("a", 1), ("b", 2)]);
}

#[test]
fn tag_pages_list_tagged_posts() {
    let posts = vec![post("a", &["rust", "diy"]), post("b", &["rust"]), post("c", &["diy"])];
    let diy = posts_with_tag(&posts, "diy");
    let slugs: Vec<&str> = diy.iter().map(|p| p.slug.as_str()).collect();
    assert_eq!(slugs, vec!["a", "c"]);
    assert_eq!(diy[0].word_count, 3);
    assert!(posts_with_tag(&posts, "none").is_empty());
}

#[test]
fn pages_cover_posts() {
    assert_eq!(page_count(0, 10), 0);
    assert_eq!(page_count(10, 10), 1);
    assert_eq!(page_count(11, 10), 2);
    let pages = index_pages(25, 10, "zh");
    let bounds: Vec<(usize, usize)> = pages.iter().map(|p| (p.start, p.end)).collect();
    assert_eq!(bounds, vec![(0, 10), (10, 20), (20, 25)]);
    assert_eq!(pages[0].dir, None);
    assert_eq!(pages[1].dir.as_deref(), Some("page/2"));
    let empty = index_pages(0, 10, "zh");
    assert_eq!(empty.len(), 1);
    assert_eq!((empty[0].start, empty[0].end), (0, 0));
    assert!(empty[0].pagination.is_none());
}

#[test]
fn pagination_links_meet() {
    let pages = index_pages(25, 10, "en");
    let p0 = pages[0].pagination.as_ref().unwrap();
    assert_eq!((p0.current, p0.total, p0.prev.as_deref(), p0.next.as_deref()), (1, 3, None, Some("/en/page/2/")));
    let p1 = pages[1].pagination.as_ref().unwrap();
    assert_eq!((p1.prev.as_deref(), p1.next.as_deref()), (Some("/en/"), Some("/en/page/3/")));
    let p2 = pages[2].pagination.as_ref().unwrap();
    assert_eq!((p2.prev.as_deref(), p2.next.as_deref()), (Some("/en/page/2/"), None));
    for k in 0..3 {
        let url = page_url_string("en", k);
        if k > 0 {
            assert_eq!(pages[k].pagination.as_ref().unwrap().prev.as_deref(), Some(page_url_string("en", k - 1).as_str()));
        }
        match &pages[k].dir {
            Some(d) => assert_eq!(url, format!("/en/{}/", d)),
            None => assert_eq!(url, "/en/"),
        }
    }
    assert!(index_pages(10, 10, "en")[0].pagination.is_none());
}

#[test]
fn index_figures() {
    let posts = vec![render("a", "2024-01-01", &["x", "y"], 100), render("b", "2024-01-02", &["x"], 23)];
    let (stats, tags) = index_stats(&posts);
    assert_eq!((stats.total_posts, stats.total_tags, stats.total_words), (2, 2, 123));
    assert_eq!(tags[0].count, 2);
}

#[test]
fn redirect_page_lists_languages() {
    let html = redirect_page(&vec!["zh".to_string(), "en".to_string()], "zh");
    let expected = "<!DOCTYPE html>\n<html lang=\"en\">\n<head>\n<meta charset=\"UTF-8\">\n<meta name=\"viewport\" content=\"width=device-width,initial-scale=1.0\">\n<title>Redirecting...</title>\n<script>\nvar lang = navigator.language || navigator.userLanguage || '';\n  if (lang.startsWith('zh')) { window.location.href = '/zh/'; }\n  if (lang.startsWith('en')) { window.location.href = '/en/'; }\n  window.location.href = '/zh/';\n</script>\n</head>\n<body>\n<p>Redirecting...</p>\n</body>\n</html>";
    assert_eq!(html, expected);
    let none = redirect_page(&vec![], "en");
    assert!(none.contains("|| '';\n\n  window.location.href = '/en/';"));
}

#[test]
fn search_entries_hold_plain_text() {
    let posts = vec![render("a", "2024-01-01", &["x"], 1)];
    let index = search_index(&posts);
    assert_eq!(index.len(), 1);
    assert_eq!(index[0].summary, "Sum &amp; more");
    assert_eq!(index[0].content, "Body text");
    assert_eq!(index[0].tags, vec!["x"]);
    assert_eq!(index[0].slug, "a");
}

#[test]
fn feed_has_one_item_per_post() {
    let c = config();
    let posts = vec![render("hello", "2024-01-01", &[], 1), render("two", "2023-06-15", &[], 1)];
    let xml = try_generate_rss(&c, &posts, c.language_config("en").unwrap()).unwrap();
    assert!(xml.starts_with("<?xml version=\"1.0\" encoding=\"utf-8\"?><rss version=\"2.0\"><channel>"));
    assert!(xml.contains("<title>EN</title>"));
    assert!(xml.contains("<link>zh/zh</link>"));
    assert!(xml.contains("<language>zh</language>"));
    assert!(xml.contains("<link>zh/posts/hello/</link>"));
    assert!(xml.contains("<guid>zh/posts/hello/</guid>"));
    assert!(xml.contains("Mon, 1 Jan 2024 00:00:00 +0000"));
    assert!(xml.contains("Thu, 15 Jun 2023 00:00:00 +0000"));
    assert!(xml.contains("<description><![CDATA[Sum &amp; more]]></description>"));
    assert_eq!(xml.matches("<item>").count(), 2);
}

#[test]
fn feed_rejects_unparsable_dates() {
    let c = config();
    let posts = vec![render("a", "2024-01-01", &[], 1), render("b", "yesterday", &[], 1), render("c", "nope", &[], 1)];
    assert_eq!(try_generate_rss(&c, &posts, c.language_config("zh").unwrap()), Err(FeedError::BadDate(1)));
    let far = vec![render("a", "+10000-01-01", &[], 1)];
    assert_eq!(try_generate_rss(&c, &far, c.language_config("zh").unwrap()), Err(FeedError::BadDate(0)));
}

#[test]
fn rebuilds_wait_for_quiet() {
    assert!(!rebuild_due(300_000_000));
    assert!(rebuild_due(300_000_001));
    assert!(!rebuild_due(0));
}

#[test]
fn reload_stream_steps() {
    assert!(matches!(reload_step(ReloadSignal::Message("reload".to_string())), StreamStep::Send(m) if m == "reload"));
    assert!(matches!(reload_step(ReloadSignal::Lagged), StreamStep::Wait));
    assert!(matches!(reload_step(ReloadSignal::Closed), StreamStep::End));
}

#[test]
fn drafts_are_skipped_unless_included() {
    let mut fm = post("d", &[]).front_matter;
    fm.draft = true;
    let mut b = BuildConfig::default();
    assert!(!b.includes(&fm));
    b.include_drafts = true;
    assert!(b.includes(&fm));
    fm.draft = false;
    assert!(BuildConfig::default().includes(&fm));
}

#[test]
fn feed_of_one_post_gives_its_day_at_midnight_utc() {
    let c = config();
    let posts = vec![render("p", "2024-02-18", &[], 1)];
    let xml = try_generate_rss(&c, &posts, c.language_config("zh").unwrap()).unwrap();
    assert!(xml.contains("<pubDate>Sun, 18 Feb 2024 00:00:00 +0000</pubDate>"));
    assert!(xml.contains("<title>T p</title>"));
    assert!(xml.contains("<title>ZH</title>"));
    assert_eq!(xml.matches("<item>").count(), 1);
}

#[test]
fn feed_dates_agree_with_chrono() {
    let c = config();
    let days = [
        (0, 1, 1), (0, 2, 29), (1, 1, 1), (99, 12, 31), (1600, 2, 29), (1899, 12, 31), (1900, 3, 1),
        (1969, 12, 31), (1970, 1, 1), (2000, 2, 29), (2023, 6, 15), (2024, 2, 18), (2024, 12, 9),
        (2100, 3, 1), (9999, 12, 31),
    ];
    for (y, m, d) in days {
        let text = format!("{:04}-{:02}-{:02}", y, m, d);
        let expected = chrono::NaiveDate::from_ymd_opt(y, m, d)
            .unwrap()
            .and_hms_opt(0, 0, 0)
            .unwrap()
            .and_utc()
            .to_rfc2822();
        let xml = try_generate_rss(&c, &vec![render("p", &text, &[], 1)], c.language_config("zh").unwrap()).unwrap();
        assert!(xml.contains(&format!("<pubDate>{}</pubDate>", expected)), "{} {}", text, expected);
    }
}
