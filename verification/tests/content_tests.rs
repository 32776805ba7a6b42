use chrono::Datelike;
use stellaris::content::{
    split_front_matter, summary_paragraph, sort_posts_newest_first, FrontMatter, FrontMatterError,
    Post,
};
use stellaris::date::Date;

/// Splits a post and reads its YAML block into front matter, the way the
/// site's loader does.
fn parse_front_matter(content: &str) -> (FrontMatter, String) {
    let (yaml, body) = split_front_matter(content).unwrap();
    let value: serde_yaml::Value = serde_yaml::from_str(&yaml).unwrap();
    let title = value.get("title").and_then(|v| v.as_str()).unwrap().to_string();
    let date_text = value.get("date").and_then(|v| v.as_str()).unwrap();
    let nd = chrono::NaiveDate::parse_from_str(date_text, "%Y-%m-%d").unwrap();
    let date = Date::from_ymd(nd.year(), nd.month(), nd.day()).unwrap();
    let tags = value
        .get("tags")
        .and_then(|v| v.as_sequence())
        .map(|s| s.iter().map(|t| t.as_str().unwrap().to_string()).collect())
        .unwrap_or_default();
    let draft = value.get("draft").and_then(|v| v.as_bool()).unwrap_or(false);
    let summary = value.get("summary").and_then(|v| v.as_str()).map(|s| s.to_string());
    (FrontMatter { title, date, tags, draft, summary }, body)
}

#[test]
fn test_parse_front_matter() {
    let content = "---\ntitle: Hello\ndate: 2024-01-01\ntags: [rust]\n---\n\nHello world";
    let (fm, body) = parse_front_matter(content);
    assert_eq!(fm.title, "Hello");
    assert_eq!(fm.date.format_ymd(), "2024-01-01");
    assert_eq!(fm.tags, vec!["rust"]);
    assert_eq!(body, "Hello world");
}

#[test]
fn split_needs_opening_fence() {
    assert_eq!(split_front_matter("title: x\n---\nbody"), Err(FrontMatterError::Missing));
    assert_eq!(split_front_matter(""), Err(FrontMatterError::Missing));
}

#[test]
fn split_needs_closing_fence() {
    assert_eq!(split_front_matter("---\ntitle: x\nbody"), Err(FrontMatterError::Unclosed));
    assert_eq!(split_front_matter("---"), Err(FrontMatterError::Unclosed));
}

#[test]
fn split_trims_block_and_body() {
    let (yaml, body) = split_front_matter("  \n---\n  title: a  \n---\n\n  text here \n\n").unwrap();
    assert_eq!(yaml, "title: a");
    assert_eq!(body, "text here");
}

#[test]
fn split_gives_back_what_was_joined() {
    let yaml = "title: \"x\"\ndate: 2024-02-03";
    let body = "Body\n\nmore";
    let file = format!("---\n{}\n---\n{}", yaml, body);
    assert_eq!(split_front_matter(&file).unwrap(), (yaml.to_string(), body.to_string()));
    let empty_body = format!("---\n{}\n---\n", yaml);
    assert_eq!(split_front_matter(&empty_body).unwrap(), (yaml.to_string(), String::new()));
}

#[test]
fn split_stops_at_first_closing_fence() {
    let (yaml, body) = split_front_matter("---\na: 1\n---\nb\n---\nc").unwrap();
    assert_eq!(yaml, "a: 1");
    assert_eq!(body, "b\n---\nc");
}

#[test]
fn front_matter_error_messages() {
    assert_eq!(FrontMatterError::Missing.message(), "文章缺少 Front Matter (---)");
    assert_eq!(FrontMatterError::Unclosed.message(), "Front Matter 未正确关闭");
}

#[test]
fn summary_takes_first_paragraph() {
    let body = "\n\nFirst line\nsecond line\n\nNext paragraph";
    assert_eq!(summary_paragraph(body), "First line second line");
}

#[test]
fn summary_handles_crlf_and_blank_body() {
    assert_eq!(summary_paragraph("a\r\nb\r\n\r\nc"), "a b");
    assert_eq!(summary_paragraph(""), "");
    assert_eq!(summary_paragraph("   \n \t \n"), "");
}

#[test]
fn summary_stops_after_300_bytes() {
    let line = "x".repeat(200);
    let body = format!("{}\n{}\n{}", line, line, line);
    let s = summary_paragraph(&body);
    assert_eq!(s, format!("{} {}", line, line));
}

fn post(slug: &str, y: i32, m: u32, d: u32) -> Post {
    Post {
        slug: slug.to_string(),
        front_matter: FrontMatter {
            title: slug.to_uppercase(),
            date: Date::from_ymd(y, m, d).unwrap(),
            tags: vec!["t".to_string()],
            draft: false,
            summary: None,
        },
        body_raw: "正文 body".to_string(),
        body_html: "<p>body</p>".to_string(),
        summary_html: "<p>s</p>".to_string(),
    }
}

#[test]
fn posts_sort_newest_first_and_stably() {
    let mut posts = vec![
        post("a", 2024, 1, 1),
        post("b", 2024, 3, 1),
        post("c", 2024, 1, 1),
        post("d", 2023, 12, 31),
        post("e", 2024, 3, 1),
    ];
    sort_posts_newest_first(&mut posts);
    let slugs: Vec<&str> = posts.iter().map(|p| p.slug.as_str()).collect();
    assert_eq!(slugs, vec!["b", "e", "a", "c", "d"]);
}

#[test]
fn render_data_of_post() {
    let mut p = post("hello", 2024, 5, 6);
    p.front_matter.summary = Some("Short".to_string());
    let r = p.render_data();
    assert_eq!(r.title, "HELLO");
    assert_eq!(r.slug, "hello");
    assert_eq!(r.date, "2024-05-06");
    assert_eq!(r.date_iso, "2024-05-06");
    assert_eq!(r.tags, vec!["t"]);
    assert_eq!(r.content_html, "<p>body</p>");
    assert_eq!(r.summary_html, "<p>s</p>");
    assert_eq!(r.summary, "Short");
    assert_eq!(r.word_count, "正文 body".len());
    assert_eq!(r.word_count, 11);
    let q = post("x", 2024, 5, 6).to_render(7);
    assert_eq!(q.summary, "");
    assert_eq!(q.word_count, 7);
}
