//! The state of the desktop editor: its status line, its busy flags, the
//! new-post form, the post list, and the texts it shows in either language.

use vstd::prelude::*;
use crate::config::Config;
use crate::content::FrontMatter;
use crate::sort::{SortKey, is_stable_sort_of, stable_sort};
use crate::text::{chars_of, push_char, seq_less, str_less, trim, trim_str, lemma_seq_less_irreflexive, lemma_seq_less_transitive, lemma_seq_less_total};

verus! {

/// The language of the editor's interface.
#[derive(Clone, Copy, Debug, PartialEq, Eq, Structural)]
pub enum UiLang {
    Zh,
    En,
}

/// A post as the editor lists it.
pub struct PostInfo {
    pub path: String,
    pub slug: String,
    pub title: String,
    /// The date as `%Y-%m-%d`.
    pub date: String,
    pub tags: Vec<String>,
    pub draft: bool,
    pub lang: String,
}

/// News from the background build and deploy jobs.
pub enum Msg {
    /// The build finished after `secs` seconds and `nanos` nanoseconds.
    BuildDone { secs: u64, nanos: u32 },
    BuildError(String),
    DeployDone,
    DeployError(String),
}

impl Msg {
    /// The message ends a build.
    pub open spec fn ends_build(self) -> bool {
        self is BuildDone || self is BuildError
    }

    /// The message ends a deployment.
    pub open spec fn ends_deploy(self) -> bool {
        self is DeployDone || self is DeployError
    }
}

/// The editor's state.
pub struct StellarisApp {
    pub project_dir: String,
    pub posts: Vec<PostInfo>,
    pub config: Option<Config>,
    pub status: String,
    pub building: bool,
    pub deploying: bool,
    pub new_post_title: String,
    pub new_post_lang: String,
    pub show_new_post: bool,
    /// Drafts are listed.
    pub filter_drafts: bool,
    pub ui_lang: UiLang,
}

/// The text `zh` or `en`, by interface language.
pub open spec fn pick(ui: UiLang, zh: Seq<char>, en: Seq<char>) -> Seq<char> {
    if ui == UiLang::Zh { zh } else { en }
}

/// How std's `{:.1?}` writes the duration of `secs` seconds and `nanos`
/// nanoseconds.
pub uninterp spec fn duration_debug_text(secs: u64, nanos: u32) -> Seq<char>;

/// `format!("{:.1?}", Duration::new(secs, nanos))`. Claimed: the text
/// depends on the duration alone.
#[verifier::external_body]
fn duration_text(secs: u64, nanos: u32) -> (r: String)
    requires
        nanos < 1_000_000_000,
    ensures
        r@ == duration_debug_text(secs, nanos),
{
    format!("{:.1?}", std::time::Duration::new(secs, nanos))
}

/// The status line after message `m`.
pub open spec fn msg_status(m: Msg, ui: UiLang) -> Seq<char> {
    match m {
        Msg::BuildDone { secs, nanos } => pick(ui, "✅ 构建完成，耗时"@, "✅ Build done in"@) + "  "@
            + duration_debug_text(secs, nanos % 1_000_000_000),
        Msg::BuildError(e) => "❌ "@ + e@,
        Msg::DeployDone => pick(ui, "✅ 部署完成，已推送到 GitHub"@, "✅ Deploy done, pushed to GitHub"@),
        Msg::DeployError(e) => "❌ "@ + e@,
    }
}

/// `a` and `b` agree on everything but the status line and the busy flags.
pub open spec fn same_but_status(a: StellarisApp, b: StellarisApp) -> bool {
    &&& a.project_dir == b.project_dir
    &&& a.posts == b.posts
    &&& a.config == b.config
    &&& a.new_post_title == b.new_post_title
    &&& a.new_post_lang == b.new_post_lang
    &&& a.show_new_post == b.show_new_post
    &&& a.filter_drafts == b.filter_drafts
    &&& a.ui_lang == b.ui_lang
}

impl SortKey for PostInfo {
    /// Later dates, compared as text, come first.
    open spec fn precedes(self, other: Self) -> bool {
        seq_less(other.date@, self.date@)
    }

    fn goes_before(&self, other: &Self) -> (r: bool) {
        str_less(other.date.as_str(), self.date.as_str())
    }

    proof fn lemma_strict_weak_order(a: Self, b: Self, c: Self) {
        lemma_seq_less_irreflexive(a.date@);
        if seq_less(b.date@, a.date@) && seq_less(c.date@, b.date@) {
            lemma_seq_less_transitive(c.date@, b.date@, a.date@);
        }
        if seq_less(b.date@, a.date@) && !seq_less(b.date@, c.date@) {
            lemma_seq_less_total(b.date@, c.date@);
            if c.date@ != b.date@ {
                lemma_seq_less_transitive(c.date@, b.date@, a.date@);
            }
        }
    }
}

impl StellarisApp {
    /// A fresh editor for the project at `project_dir`: ready, nothing
    /// running, the form empty and set to Chinese, drafts listed.
    pub fn new(project_dir: String) -> (r: Self)
        ensures
            r.project_dir == project_dir,
            r.posts@.len() == 0,
            r.config is None,
            r.status@ == "就绪"@,
            !r.building,
            !r.deploying,
            r.new_post_title@.len() == 0,
            r.new_post_lang@ == "zh"@,
            !r.show_new_post,
            r.filter_drafts,
            r.ui_lang == UiLang::Zh,
    {
        let mut app = StellarisApp {
            project_dir,
            posts: Vec::new(),
            config: None,
            status: String::new(),
            building: false,
            deploying: false,
            new_post_title: String::new(),
            new_post_lang: "zh".to_owned(),
            show_new_post: false,
            filter_drafts: true,
            ui_lang: UiLang::Zh,
        };
        app.status = app.t("就绪", "Ready");
        app
    }

    /// The text for the interface language.
    pub fn t(&self, zh: &str, en: &str) -> (r: String)
        ensures
            r@ == pick(self.ui_lang, zh@, en@),
    {
        match self.ui_lang {
            UiLang::Zh => zh.to_owned(),
            UiLang::En => en.to_owned(),
        }
    }

    /// Keeps the configuration if it could be loaded.
    pub fn load_config(&mut self, loaded: Option<Config>)
        ensures
            *final(self) == (StellarisApp {
                config: match loaded {
                    Some(c) => Some(c),
                    None => old(self).config,
                },
                ..*old(self)
            }),
    {
        if let Some(c) = loaded {
            self.config = Some(c);
        }
    }

    /// Lists the posts found, newest date first; posts of one date keep
    /// the order in which they were found.
    pub fn load_posts(&mut self, found: Vec<PostInfo>)
        ensures
            is_stable_sort_of(final(self).posts@, found@),
            *final(self) == (StellarisApp { posts: final(self).posts, ..*old(self) }),
    {
        let mut posts = found;
        stable_sort(&mut posts);
        self.posts = posts;
    }

    /// Takes in the news of the background jobs, in order: a build or
    /// deployment message ends the job it reports on, and the status line
    /// shows the last message.
    pub fn process_messages(&mut self, msgs: Vec<Msg>)
        ensures
            same_but_status(*final(self), *old(self)),
            final(self).building == (old(self).building && forall|k: int|
                0 <= k < msgs@.len() ==> !(#[trigger] msgs@[k]).ends_build()),
            final(self).deploying == (old(self).deploying && forall|k: int|
                0 <= k < msgs@.len() ==> !(#[trigger] msgs@[k]).ends_deploy()),
            msgs@.len() > 0 ==> final(self).status@ == msg_status(msgs@.last(), old(self).ui_lang),
            msgs@.len() == 0 ==> final(self).status == old(self).status,
    {
        let ghost start = *self;
        let n = msgs.len();
        let mut i: usize = 0;
        let mut rest = msgs;
        assert(rest@.skip(0) =~= rest@);
        let ghost all = rest@;
        while i < n
            invariant
                i <= n == all.len(),
                rest@ == all.skip(i as int),
                same_but_status(*self, start),
                self.building == (start.building && forall|k: int|
                    0 <= k < i ==> !(#[trigger] all[k]).ends_build()),
                self.deploying == (start.deploying && forall|k: int|
                    0 <= k < i ==> !(#[trigger] all[k]).ends_deploy()),
                i > 0 ==> self.status@ == msg_status(all[i - 1], start.ui_lang),
                i == 0 ==> self.status == start.status,
            decreases n - i,
        {
            let m = rest.remove(0);
            assert(m == all[i as int]);
            assert(rest@ =~= all.skip(i + 1));
            self.apply(m);
            i += 1;
        }
    }

    /// Takes in one message.
    fn apply(&mut self, m: Msg)
        ensures
            same_but_status(*final(self), *old(self)),
            final(self).building == (old(self).building && !m.ends_build()),
            final(self).deploying == (old(self).deploying && !m.ends_deploy()),
            final(self).status@ == msg_status(m, old(self).ui_lang),
    {
        match m {
            Msg::BuildDone { secs, nanos } => {
                self.building = false;
                let mut s = self.t("✅ 构建完成，耗时", "✅ Build done in");
                s.append("  ");
                let d = duration_text(secs, nanos % 1_000_000_000);
                s.append(d.as_str());
                self.status = s;
            },
            Msg::BuildError(e) => {
                self.building = false;
                let mut s = "❌ ".to_owned();
                s.append(e.as_str());
                self.status = s;
            },
            Msg::DeployDone => {
                self.deploying = false;
                self.status = self.t("✅ 部署完成，已推送到 GitHub", "✅ Deploy done, pushed to GitHub");
            },
            Msg::DeployError(e) => {
                self.deploying = false;
                let mut s = "❌ ".to_owned();
                s.append(e.as_str());
                self.status = s;
            },
        }
    }

    /// Starts a build unless one is running; says whether it started.
    pub fn begin_build(&mut self) -> (r: bool)
        ensures
            r == !old(self).building,
            final(self).building,
            same_but_status(*final(self), *old(self)),
            final(self).deploying == old(self).deploying,
            r ==> final(self).status@ == pick(old(self).ui_lang, "构建中..."@, "Building..."@),
            !r ==> final(self).status == old(self).status,
    {
        if self.building {
            return false;
        }
        self.building = true;
        self.status = self.t("构建中...", "Building...");
        true
    }

    /// Starts a deployment unless one is running; says whether it started.
    pub fn begin_deploy(&mut self) -> (r: bool)
        ensures
            r == !old(self).deploying,
            final(self).deploying,
            same_but_status(*final(self), *old(self)),
            final(self).building == old(self).building,
            r ==> final(self).status@ == pick(old(self).ui_lang, "部署中..."@, "Deploying..."@),
            !r ==> final(self).status == old(self).status,
    {
        if self.deploying {
            return false;
        }
        self.deploying = true;
        self.status = self.t("部署中...", "Deploying...");
        true
    }

    /// The positions of the posts the list shows: all of them when drafts
    /// are listed, else those that are not drafts; in order.
    pub fn visible_posts(&self) -> (r: Vec<usize>)
        ensures
            r@ == shown_positions(self.posts@, self.filter_drafts),
    {
        let mut out: Vec<usize> = Vec::new();
        let mut i: usize = 0;
        assert(self.posts@.take(0) =~= Seq::<PostInfo>::empty());
        while i < self.posts.len()
            invariant
                i <= self.posts.len(),
                out@ == shown_positions(self.posts@.take(i as int), self.filter_drafts),
            decreases self.posts.len() - i,
        {
            proof {
                let t = self.posts@.take(i + 1);
                assert(t.drop_last() =~= self.posts@.take(i as int));
                assert(t.last() == self.posts@[i as int]);
            }
            if self.filter_drafts || !self.posts[i].draft {
                out.push(i);
            }
            i += 1;
        }
        assert(self.posts@.take(i as int) =~= self.posts@);
        out
    }

    /// The line under a post's title: date, language and state.
    pub fn post_line(&self, post: &PostInfo) -> (r: String)
        ensures
            r@ == post.date@ + "  |  "@ + (if post.lang@ == "zh"@ { "中文"@ } else { "English"@ })
                + "  |  "@ + (if post.draft {
                pick(self.ui_lang, "草稿"@, "Draft"@)
            } else {
                pick(self.ui_lang, "已发布"@, "Published"@)
            }),
    {
        let mut s = post.date.clone();
        s.append("  |  ");
        if crate::text::str_eq(post.lang.as_str(), "zh") {
            s.append("中文");
        } else {
            s.append("English");
        }
        s.append("  |  ");
        let state = if post.draft {
            self.t("草稿", "Draft")
        } else {
            self.t("已发布", "Published")
        };
        s.append(state.as_str());
        s
    }

    /// The configuration lines of the build view: default language,
    /// author, and the author's email when there is one.
    pub fn config_info(&self) -> (r: Option<Vec<String>>)
        ensures
            self.config is None ==> r is None,
            self.config matches Some(c) ==> r matches Some(lines) && lines@.len() == (if c.author.email is Some {
                3int
            } else {
                2int
            }) && lines@[0]@ == pick(self.ui_lang, "站点默认语言"@, "Default language"@) + ": "@
                + c.site.default@ && lines@[1]@ == pick(self.ui_lang, "作者"@, "Author"@) + ": "@
                + c.author.name@ && (c.author.email matches Some(e) ==> lines@[2]@ == pick(
                self.ui_lang,
                "邮箱"@,
                "Email"@,
            ) + ": "@ + e@),
    {
        match &self.config {
            None => None,
            Some(c) => {
                let mut lines: Vec<String> = Vec::new();
                let mut a = self.t("站点默认语言", "Default language");
                a.append(": ");
                a.append(c.site.default.as_str());
                lines.push(a);
                let mut b = self.t("作者", "Author");
                b.append(": ");
                b.append(c.author.name.as_str());
                lines.push(b);
                if let Some(e) = &c.author.email {
                    let mut m = self.t("邮箱", "Email");
                    m.append(": ");
                    m.append(e.as_str());
                    lines.push(m);
                }
                Some(lines)
            },
        }
    }

    /// Shows that the list was reloaded.
    pub fn mark_refreshed(&mut self)
        ensures
            same_but_status(*final(self), *old(self)),
            final(self).building == old(self).building,
            final(self).deploying == old(self).deploying,
            final(self).status@ == pick(old(self).ui_lang, "已刷新"@, "Refreshed"@),
    {
        self.status = self.t("已刷新", "Refreshed");
    }

    /// The slug of the post that the form would create, unless its title is blank.
    pub fn new_post_slug(&self) -> (r: Option<String>)
        ensures
            r is None <==> trim(self.new_post_title@).len() == 0,
            r matches Some(s) ==> s@ == slug_of(self.new_post_title@),
    {
        let t = trim_str(self.new_post_title.as_str());
        if t.as_str().is_empty() {
            None
        } else {
            Some(slugify(self.new_post_title.as_str()))
        }
    }

    /// Shows that a post file with this slug is already there.
    pub fn post_exists(&mut self, slug: &str)
        ensures
            same_but_status(*final(self), *old(self)),
            final(self).building == old(self).building,
            final(self).deploying == old(self).deploying,
            final(self).status@ == pick(old(self).ui_lang, "文件已存在"@, "File already exists"@) + ": "@
                + slug@ + ".md"@,
    {
        let mut s = self.t("文件已存在", "File already exists");
        s.append(": ");
        s.append(slug);
        s.append(".md");
        self.status = s;
    }

    /// Closes the form after the post file was written.
    pub fn post_created(&mut self, slug: &str)
        ensures
            final(self).new_post_title@.len() == 0,
            !final(self).show_new_post,
            final(self).status@ == pick(old(self).ui_lang, "已创建，在编辑器中打开"@, "Created, open in editor"@)
                + ": "@ + slug@ + ".md"@,
            *final(self) == (StellarisApp {
                new_post_title: final(self).new_post_title,
                show_new_post: false,
                status: final(self).status,
                ..*old(self)
            }),
    {
        self.new_post_title = String::new();
        self.show_new_post = false;
        let mut s = self.t("已创建，在编辑器中打开", "Created, open in editor");
        s.append(": ");
        s.append(slug);
        s.append(".md");
        self.status = s;
    }

    /// Shows that a post was deleted.
    pub fn post_deleted(&mut self, title: &str)
        ensures
            same_but_status(*final(self), *old(self)),
            final(self).building == old(self).building,
            final(self).deploying == old(self).deploying,
            final(self).status@ == pick(old(self).ui_lang, "已删除"@, "Deleted"@) + ": "@ + title@,
    {
        let mut s = self.t("已删除", "Deleted");
        s.append(": ");
        s.append(title);
        self.status = s;
    }
}

/// A git command of a deployment: stage everything, commit, push.
#[derive(Clone, Copy, Debug, PartialEq, Eq, Structural)]
pub enum GitStep {
    Add,
    Commit,
    Push,
}

/// How a git command ended.
pub enum GitOutcome {
    /// The command could not be started; the error's text.
    NotRun(String),
    /// The command ran: whether it exited successfully, and what it wrote
    /// to stderr.
    Ran { success: bool, stderr: String },
}

/// What a deployment does after a git command.
pub enum DeployNext {
    /// Run the next command.
    Run(GitStep),
    /// Stop, and report this message.
    Finish(Msg),
}

/// `next` reports a failed deployment with the text `text`.
pub open spec fn fails_with(next: DeployNext, text: Seq<char>) -> bool {
    next matches DeployNext::Finish(Msg::DeployError(e)) && e@ == text
}

/// `next` is the step after `step` ended with `outcome`: a staging that did
/// not run or failed stops with `git add failed`; a commit that could not
/// be run stops with `git commit failed`, while one that ran goes on to the
/// push whatever its exit status; a successful push ends the deployment,
/// and a failed one reports git's stderr, or the error that kept it from
/// running.
pub open spec fn deploy_step(step: GitStep, outcome: GitOutcome, next: DeployNext) -> bool {
    match step {
        GitStep::Add => match outcome {
            GitOutcome::Ran { success: true, .. } => next == DeployNext::Run(GitStep::Commit),
            _ => fails_with(next, "git add failed"@),
        },
        GitStep::Commit => match outcome {
            GitOutcome::NotRun(_) => fails_with(next, "git commit failed"@),
            GitOutcome::Ran { .. } => next == DeployNext::Run(GitStep::Push),
        },
        GitStep::Push => match outcome {
            GitOutcome::Ran { success: true, .. } => next matches DeployNext::Finish(Msg::DeployDone),
            GitOutcome::Ran { success: false, stderr } => fails_with(next, "git push failed: "@ + stderr@),
            GitOutcome::NotRun(e) => fails_with(next, "git push failed: "@ + e@),
        },
    }
}

/// Decides what a deployment does after git command `step` ended with
/// `outcome`. A deployment starts with `GitStep::Add`.
pub fn deploy_next(step: GitStep, outcome: GitOutcome) -> (r: DeployNext)
    ensures
        deploy_step(step, outcome, r),
{
    match step {
        GitStep::Add => match outcome {
            GitOutcome::Ran { success: true, .. } => DeployNext::Run(GitStep::Commit),
            _ => {
                proof {
                    reveal_strlit("git add failed");
                }
                DeployNext::Finish(Msg::DeployError("git add failed".to_owned()))
            },
        },
        GitStep::Commit => match outcome {
            GitOutcome::NotRun(_) => {
                proof {
                    reveal_strlit("git commit failed");
                }
                DeployNext::Finish(Msg::DeployError("git commit failed".to_owned()))
            },
            GitOutcome::Ran { .. } => DeployNext::Run(GitStep::Push),
        },
        GitStep::Push => match outcome {
            GitOutcome::Ran { success: true, .. } => DeployNext::Finish(Msg::DeployDone),
            GitOutcome::Ran { success: false, stderr } => {
                let mut e = "git push failed: ".to_owned();
                e.append(stderr.as_str());
                DeployNext::Finish(Msg::DeployError(e))
            },
            GitOutcome::NotRun(err) => {
                let mut e = "git push failed: ".to_owned();
                e.append(err.as_str());
                DeployNext::Finish(Msg::DeployError(e))
            },
        },
    }
}

/// The arguments of `git` for `step`, run in `dir`; the commit carries
/// `message` and is made even when nothing changed.
pub open spec fn git_args_of(step: GitStep, dir: Seq<char>, message: Seq<char>) -> Seq<Seq<char>> {
    match step {
        GitStep::Add => seq!["-C"@, dir, "add"@, "-A"@],
        GitStep::Commit => seq!["-C"@, dir, "commit"@, "--allow-empty"@, "-m"@, message],
        GitStep::Push => seq!["-C"@, dir, "push"@],
    }
}

/// The arguments of `git` for `step`, run in the project at `dir`.
pub fn git_args(step: GitStep, dir: &str, message: &str) -> (r: Vec<String>)
    ensures
        r@.map_values(|a: String| a@) == git_args_of(step, dir@, message@),
{
    let mut r: Vec<String> = Vec::new();
    r.push("-C".to_owned());
    r.push(dir.to_owned());
    match step {
        GitStep::Add => {
            r.push("add".to_owned());
            r.push("-A".to_owned());
        },
        GitStep::Commit => {
            r.push("commit".to_owned());
            r.push("--allow-empty".to_owned());
            r.push("-m".to_owned());
            r.push(message.to_owned());
        },
        GitStep::Push => {
            r.push("push".to_owned());
        },
    }
    assert(r@.map_values(|a: String| a@) =~= git_args_of(step, dir@, message@));
    r
}

/// The message of a deployment's commit made at `now`.
pub fn deploy_commit_message(now: &str) -> (r: String)
    ensures
        r@ == "deploy: auto update "@ + now@,
{
    let mut m = "deploy: auto update ".to_owned();
    m.append(now);
    m
}

/// The positions of the posts of `posts` that the list shows.
pub open spec fn shown_positions(posts: Seq<PostInfo>, drafts_listed: bool) -> Seq<usize>
    decreases posts.len(),
{
    if posts.len() == 0 {
        seq![]
    } else {
        let rest = shown_positions(posts.drop_last(), drafts_listed);
        if drafts_listed || !posts.last().draft {
            rest.push((posts.len() - 1) as usize)
        } else {
            rest
        }
    }
}

/// The text of a new post file: front matter with the title, the day, no
/// tags and the draft flag set, then an empty body.
pub open spec fn new_post_text(title: Seq<char>, today: Seq<char>) -> Seq<char> {
    "---\ntitle: \""@ + trim(title) + "\"\ndate: "@ + today + "\ntags: []\ndraft: true\n---\n\n"@
}

/// The text of a new post file titled `title`, dated `today`.
pub fn new_post_content(title: &str, today: &str) -> (r: String)
    ensures
        r@ == new_post_text(title@, today@),
{
    let mut s = "---\ntitle: \"".to_owned();
    let t = trim_str(title);
    s.append(t.as_str());
    s.append("\"\ndate: ");
    s.append(today);
    s.append("\ntags: []\ndraft: true\n---\n\n");
    s
}

/// What `str::to_lowercase` returns.
pub uninterp spec fn str_lowercase(s: Seq<char>) -> Seq<char>;

/// What `char::is_alphanumeric` returns.
pub uninterp spec fn char_alphanumeric(c: char) -> bool;

/// `str::to_lowercase`. Claimed: the result depends on `s` alone.
#[verifier::external_body]
fn to_lowercase(s: &str) -> (r: String)
    ensures
        r@ == str_lowercase(s@),
{
    s.to_lowercase()
}

/// `char::is_alphanumeric`. Claimed: the answer depends on `c` alone.
#[verifier::external_body]
fn is_alphanumeric(c: char) -> (r: bool)
    ensures
        r == char_alphanumeric(c),
{
    c.is_alphanumeric()
}

/// A character is kept in a slug.
pub open spec fn slug_keeps(c: char) -> bool {
    char_alphanumeric(c) || c == ' '
}

/// The slug made of `s`: the kept characters, with spaces written as `-`.
pub open spec fn slug_chars(s: Seq<char>) -> Seq<char>
    decreases s.len(),
{
    if s.len() == 0 {
        seq![]
    } else {
        let rest = slug_chars(s.drop_last());
        let c = s.last();
        if slug_keeps(c) {
            rest.push(if c == ' ' { '-' } else { c })
        } else {
            rest
        }
    }
}

/// The slug of a title: lowercased, trimmed, with only letters, digits and
/// spaces kept, and spaces turned into hyphens.
pub open spec fn slug_of(title: Seq<char>) -> Seq<char> {
    slug_chars(trim(str_lowercase(title)))
}

/// The slug of a title, used as the post's file name.
pub fn slugify(title: &str) -> (r: String)
    ensures
        r@ == slug_of(title@),
        forall|k: int| 0 <= k < r@.len() ==> (#[trigger] r@[k] == '-' || char_alphanumeric(r@[k])),
{
    let lower = to_lowercase(title);
    let trimmed = trim_str(lower.as_str());
    let v = chars_of(trimmed.as_str());
    let mut out = String::new();
    let mut i: usize = 0;
    assert(v@.take(0) =~= Seq::<char>::empty());
    while i < v.len()
        invariant
            i <= v.len(),
            v@ == trim(str_lowercase(title@)),
            out@ == slug_chars(v@.take(i as int)),
            forall|k: int| 0 <= k < out@.len() ==> (#[trigger] out@[k] == '-' || char_alphanumeric(out@[k])),
        decreases v.len() - i,
    {
        let c = v[i];
        proof {
            let t = v@.take(i + 1);
            assert(t.drop_last() =~= v@.take(i as int));
            assert(t.last() == c);
        }
        if is_alphanumeric(c) || c == ' ' {
            push_char(&mut out, if c == ' ' { '-' } else { c });
        }
        i += 1;
    }
    assert(v@.take(i as int) =~= v@);
    out
}

/// The name of a post file: `slug.md`.
pub fn post_file_name(slug: &str) -> (r: String)
    ensures
        r@ == slug@ + ".md"@,
{
    let mut s = slug.to_owned();
    s.append(".md");
    s
}

/// The editor's entry for a post read from `path`.
pub fn post_info(path: String, slug: String, front_matter: &FrontMatter, lang: String) -> (r: PostInfo)
    ensures
        r.path == path,
        r.slug == slug,
        r.title == front_matter.title,
        r.date@ == front_matter.date.text(),
        r.tags@ == front_matter.tags@,
        r.draft == front_matter.draft,
        r.lang == lang,
{
    let tags = front_matter.tags.clone();
    assert(tags@ =~= front_matter.tags@);
    PostInfo {
        path,
        slug,
        title: front_matter.title.clone(),
        date: front_matter.date.format_ymd(),
        tags,
        draft: front_matter.draft,
        lang,
    }
}

} // verus!
