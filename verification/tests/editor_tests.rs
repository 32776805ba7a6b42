use stellaris::config::{AuthorConfig, BuildConfig, Config, SiteConfig};
use stellaris::gui::{
    deploy_commit_message, deploy_next, git_args, new_post_content, post_file_name, slugify, DeployNext, GitOutcome,
    GitStep, Msg, PostInfo, StellarisApp, UiLang,
};
use stellaris::markdown::{generate_summary, MarkdownRenderer};

fn info(slug: &str, date: &str, draft: bool) -> PostInfo {
    PostInfo {
        path: format!("content/zh/posts/{}.md", slug),
        slug: slug.to_string(),
        title: slug.to_string(),
        date: date.to_string(),
        tags: vec![],
        draft,
        lang: "zh".to_string(),
    }
}

#[test]
fn new_editor_is_ready() {
    let app = StellarisApp::new("blog".to_string());
    assert_eq!(app.status, "就绪");
    assert!(!app.building && !app.deploying && app.filter_drafts);
    assert_eq!(app.new_post_lang, "zh");
    assert!(app.config.is_none());
}

#[test]
fn text_follows_interface_language() {
    let mut app = StellarisApp::new(String::new());
    assert_eq!(app.t("就绪", "Ready"), "就绪");
    app.ui_lang = UiLang::En;
    assert_eq!(app.t("就绪", "Ready"), "Ready");
}

#[test]
fn messages_end_jobs() {
    let mut app = StellarisApp::new(String::new());
    assert!(app.begin_build());
    assert!(!app.begin_build());
    assert_eq!(app.status, "构建中...");
    assert!(app.begin_deploy());
    app.process_messages(vec![Msg::BuildDone { secs: 1, nanos: 500_000_000 }]);
    assert!(!app.building && app.deploying);
    assert_eq!(app.status, "✅ 构建完成，耗时  1.5s");
    app.process_messages(vec![Msg::DeployError("git push failed: x".to_string())]);
    assert!(!app.deploying);
    assert_eq!(app.status, "❌ git push failed: x");
    app.ui_lang = UiLang::En;
    app.process_messages(vec![Msg::BuildError("e".to_string()), Msg::DeployDone]);
    assert_eq!(app.status, "✅ Deploy done, pushed to GitHub");
    let before = app.status.clone();
    app.process_messages(vec![]);
    assert_eq!(app.status, before);
}

#[test]
fn posts_list_newest_first_and_filters_drafts() {
    let mut app = StellarisApp::new(String::new());
    app.load_posts(vec![info("a", "2024-01-01", false), info("b", "2024-02-01", true), info("c", "2024-01-01", false)]);
    let slugs: Vec<&str> = app.posts.iter().map(|p| p.slug.as_str()).collect();
    assert_eq!(slugs, vec!["b", "a", "c"]);
    assert_eq!(app.visible_posts(), vec![0, 1, 2]);
    app.filter_drafts = false;
    assert_eq!(app.visible_posts(), vec![1, 2]);
    assert_eq!(app.post_line(&app.posts[0]), "2024-02-01  |  中文  |  草稿");
}

#[test]
fn config_lines() {
    let mut app = StellarisApp::new(String::new());
    assert!(app.config_info().is_none());
    app.load_config(Some(Config {
        site: SiteConfig::default(),
        author: AuthorConfig { name: "Me".to_string(), email: Some("a@b".to_string()) },
        build: BuildConfig::default(),
        comment: None,
        languages: vec![],
    }));
    assert_eq!(app.config_info().unwrap(), vec!["站点默认语言: zh", "作者: Me", "邮箱: a@b"]);
}

#[test]
fn new_post_form() {
    let mut app = StellarisApp::new(String::new());
    app.new_post_title = "   ".to_string();
    assert!(app.new_post_slug().is_none());
    app.new_post_title = " Hello, World! 2 ".to_string();
    assert_eq!(app.new_post_slug().unwrap(), "hello-world-2");
    app.post_exists("hello-world-2");
    assert_eq!(app.status, "文件已存在: hello-world-2.md");
    app.show_new_post = true;
    app.post_created("hello-world-2");
    assert!(app.new_post_title.is_empty() && !app.show_new_post);
    assert_eq!(app.status, "已创建，在编辑器中打开: hello-world-2.md");
    app.post_deleted("Hi");
    assert_eq!(app.status, "已删除: Hi");
    assert_eq!(post_file_name("x"), "x.md");
}

#[test]
fn slugs() {
    assert_eq!(slugify("Hello World"), "hello-world");
    assert_eq!(slugify("My DIY Project!"), "my-diy-project");
    assert_eq!(slugify("a!b"), "ab");
    assert_eq!(slugify("Straße Über"), "straße-über");
    assert_eq!(slugify("  星尘 之下 "), "星尘-之下");
}

#[test]
fn new_post_text() {
    assert_eq!(
        new_post_content("  Title  ", "2026-07-01"),
        "---\ntitle: \"Title\"\ndate: 2026-07-01\ntags: []\ndraft: true\n---\n\n"
    );
}

#[test]
fn markdown_renders_with_pulldown() {
    let r = MarkdownRenderer::new("base16-ocean.dark");
    assert_eq!(r.render("**b**"), "<p><strong>b</strong></p>\n");
    assert_eq!(r.render(""), "");
}

#[test]
fn unknown_code_language_is_escaped() {
    let r = MarkdownRenderer::new("base16-ocean.dark");
    let html = r.render("text\n\n```nosuchlang\nx < y\n```\n\nafter");
    assert_eq!(html, "<p>text</p>\n<pre><code class=\"language-nosuchlang\">x &lt; y\n</code></pre><p>after</p>\n");
}

#[test]
fn known_code_language_is_highlighted() {
    let r = MarkdownRenderer::new("base16-ocean.dark");
    let html = r.render("```rust\nfn main() {}\n```");
    assert!(html.starts_with("<pre style=\""));
    assert!(html.contains("main"));
    let fallback = MarkdownRenderer::new("no-such-theme").render("```rust\nlet x = 1;\n```");
    assert!(fallback.starts_with("<pre style=\""));
}

#[test]
fn summary_from_front_matter_or_body() {
    let r = MarkdownRenderer::new("base16-ocean.dark");
    let mut p = stellaris::content::Post {
        slug: "s".to_string(),
        front_matter: stellaris::content::FrontMatter {
            title: "t".to_string(),
            date: stellaris::date::Date::from_ymd(2024, 1, 1).unwrap(),
            tags: vec![],
            draft: false,
            summary: None,
        },
        body_raw: "First *para*\nline two\n\nSecond".to_string(),
        body_html: String::new(),
        summary_html: String::new(),
    };
    assert_eq!(generate_summary(&r, &p), "<p>First <em>para</em> line two</p>\n");
    p.front_matter.summary = Some("Given".to_string());
    assert_eq!(generate_summary(&r, &p), "<p>Given</p>\n");
}

#[test]
fn unknown_theme_falls_back_to_the_first_default() {
    let code = "```rust\nlet x = 1;\n```";
    let fallback = MarkdownRenderer::new("no-such-theme").render(code);
    assert_eq!(fallback, MarkdownRenderer::new("InspiredGitHub").render(code));
    assert_ne!(fallback, MarkdownRenderer::new("base16-ocean.dark").render(code));
}

fn ran(success: bool, stderr: &str) -> GitOutcome {
    GitOutcome::Ran { success, stderr: stderr.to_string() }
}

fn error_of(next: DeployNext) -> Option<String> {
    match next {
        DeployNext::Finish(Msg::DeployError(e)) => Some(e),
        _ => None,
    }
}

#[test]
fn deployment_steps() {
    assert!(matches!(deploy_next(GitStep::Add, ran(true, "")), DeployNext::Run(GitStep::Commit)));
    assert_eq!(error_of(deploy_next(GitStep::Add, ran(false, "x"))), Some("git add failed".to_string()));
    assert_eq!(error_of(deploy_next(GitStep::Add, GitOutcome::NotRun("no git".to_string()))), Some("git add failed".to_string()));
    assert!(matches!(deploy_next(GitStep::Commit, ran(false, "nothing to commit")), DeployNext::Run(GitStep::Push)));
    assert!(matches!(deploy_next(GitStep::Commit, ran(true, "")), DeployNext::Run(GitStep::Push)));
    assert_eq!(error_of(deploy_next(GitStep::Commit, GitOutcome::NotRun("e".to_string()))), Some("git commit failed".to_string()));
    assert!(matches!(deploy_next(GitStep::Push, ran(true, "")), DeployNext::Finish(Msg::DeployDone)));
    assert_eq!(error_of(deploy_next(GitStep::Push, ran(false, "rejected"))), Some("git push failed: rejected".to_string()));
    assert_eq!(error_of(deploy_next(GitStep::Push, GitOutcome::NotRun("not found".to_string()))), Some("git push failed: not found".to_string()));
}

#[test]
fn deployment_git_arguments() {
    assert_eq!(git_args(GitStep::Add, "blog", "m"), vec!["-C", "blog", "add", "-A"]);
    assert_eq!(git_args(GitStep::Commit, "blog", "m"), vec!["-C", "blog", "commit", "--allow-empty", "-m", "m"]);
    assert_eq!(git_args(GitStep::Push, "blog", "m"), vec!["-C", "blog", "push"]);
    assert_eq!(deploy_commit_message("2024-02-18 10:30"), "deploy: auto update 2024-02-18 10:30");
}

#[test]
fn loading_changes_only_what_was_loaded() {
    let mut app = StellarisApp::new("blog".to_string());
    app.new_post_title = "draft title".to_string();
    app.filter_drafts = false;
    app.load_config(None);
    assert!(app.config.is_none());
    assert_eq!(app.new_post_title, "draft title");
    assert!(!app.filter_drafts);
    app.load_posts(vec![info("a", "2024-01-01", false)]);
    assert_eq!(app.posts.len(), 1);
    assert_eq!(app.project_dir, "blog");
    assert_eq!(app.new_post_title, "draft title");
    app.new_post_lang = "en".to_string();
    app.post_created("a");
    assert_eq!(app.new_post_lang, "en");
    assert_eq!(app.new_post_title, "");
    assert_eq!(app.posts.len(), 1);
}
