//! The site generator's decisions: which page a source file is, how post
//! sources are ordered and dated, what each output file is called, and how
//! code blocks of rendered Markdown are replaced by highlighted HTML.
use pulldown_cmark::{CodeBlockKind, CowStr, Event, Tag, TagEnd};
use vstd::prelude::*;

use crate::content::frontmatter_date;
use crate::dates::display_iso_date;
use crate::order::{
    is_desc, key_of, lemma_sorted_desc_is_desc, lemma_sorted_desc_permutes, sort_desc_stable,
    sorted_desc, SortKey,
};
use crate::text::{chars_eq_str, chars_of, string_of};
use crate::types::{Post, PostConfig, PostConfigView, PostView, ProjectView};

verus! {

// ---------------------------------------------------------------------------
// Pages and files
// ---------------------------------------------------------------------------

/// What a Markdown source becomes.
#[derive(Debug, Clone, Copy, PartialEq, Eq, Structural)]
pub enum PageKind {
    About,
    Projects,
    Article,
}

/// `AboutMe.md` is the about page, `Projects.md` the projects page, any
/// other source a post.
pub open spec fn kind_of_file(name: Seq<char>) -> PageKind {
    if name == "AboutMe.md"@ {
        PageKind::About
    } else if name == "Projects.md"@ {
        PageKind::Projects
    } else {
        PageKind::Article
    }
}

pub fn page_kind(file_name: &str) -> (k: PageKind)
    ensures
        k == kind_of_file(file_name@),
{
    let name = chars_of(file_name);
    if chars_eq_str(&name, "AboutMe.md") {
        PageKind::About
    } else if chars_eq_str(&name, "Projects.md") {
        PageKind::Projects
    } else {
        PageKind::Article
    }
}

/// The output file of a page: `about.json`, `projects.json`, or the post's
/// slug with `.json`.
pub open spec fn json_name(kind: PageKind, slug: Seq<char>) -> Seq<char> {
    match kind {
        PageKind::About => "about.json"@,
        PageKind::Projects => "projects.json"@,
        PageKind::Article => slug + ".json"@,
    }
}

pub fn json_file_name(kind: PageKind, slug: &str) -> (r: String)
    ensures
        r@ == json_name(kind, slug@),
{
    match kind {
        PageKind::About => "about.json".to_owned(),
        PageKind::Projects => "projects.json".to_owned(),
        PageKind::Article => {
            let mut name = chars_of(slug);
            name.append(&mut chars_of(".json"));
            string_of(&name)
        },
    }
}

/// The page a source makes: its front matter with the rendered HTML; only
/// the projects page keeps the front matter's projects.
pub open spec fn page_of(config: PostConfigView, html: Seq<char>, kind: PageKind) -> PostView {
    PostView {
        title: config.title,
        date: config.date,
        slug: config.slug,
        summary: config.summary,
        content: html,
        projects: if kind == PageKind::Projects {
            config.projects
        } else {
            Seq::empty()
        },
    }
}

pub fn page_post(config: PostConfig, html: String, kind: PageKind) -> (p: Post)
    ensures
        p@ == page_of(config@, html@, kind),
{
    let projects = if kind == PageKind::Projects {
        config.projects
    } else {
        Vec::new()
    };
    let p = Post {
        title: config.title,
        date: config.date,
        slug: config.slug,
        summary: config.summary,
        content: html,
        projects,
    };
    if kind != PageKind::Projects {
        assert(p@.projects =~= Seq::<ProjectView>::empty());
    }
    p
}

// ---------------------------------------------------------------------------
// Post sources
// ---------------------------------------------------------------------------

impl SortKey for (PostConfig, String) {
    open spec fn sort_key(&self) -> Seq<char> {
        self.0.date@
    }

    fn key_chars(&self) -> (r: Vec<char>) {
        chars_of(self.0.date.as_str())
    }
}

/// A post source with its date shown long-form when it is an ISO date.
pub open spec fn dated(e: (PostConfig, String)) -> (PostConfigView, Seq<char>) {
    (PostConfigView { date: frontmatter_date(e.0.date@), ..e.0@ }, e.1@)
}

/// The post sources newest first by their dates as written (ISO dates
/// order as text), sources with the same date in their given order, each
/// with its date then shown long-form.
pub open spec fn prepared_posts(sources: Seq<(PostConfig, String)>) -> Seq<(PostConfigView, Seq<char>)> {
    sorted_desc(sources, key_of::<(PostConfig, String)>()).map_values(
        |e: (PostConfig, String)| dated(e),
    )
}

/// Before their dates are rewritten, the post sources stand newest first
/// by their written dates, and none is lost or added.
pub proof fn law_post_sources_newest_first(sources: Seq<(PostConfig, String)>)
    ensures
        is_desc(
            sorted_desc(sources, key_of::<(PostConfig, String)>()),
            key_of::<(PostConfig, String)>(),
        ),
        sorted_desc(sources, key_of::<(PostConfig, String)>()).to_multiset() == sources.to_multiset(),
{
    lemma_sorted_desc_is_desc(sources, key_of::<(PostConfig, String)>());
    lemma_sorted_desc_permutes(sources, key_of::<(PostConfig, String)>());
}

/// Orders the post sources and rewrites their dates for display.
pub fn prepare_posts(sources: Vec<(PostConfig, String)>) -> (r: Vec<(PostConfig, String)>)
    ensures
        r@.map_values(|e: (PostConfig, String)| (e.0@, e.1@)) == prepared_posts(sources@),
{
    let sorted = sort_desc_stable(sources);
    let ghost orig = sorted@;
    let mut rest = sorted;
    let mut out: Vec<(PostConfig, String)> = Vec::new();
    let ghost mut i: int = 0;
    assert(orig.skip(0) =~= orig);
    while rest.len() > 0
        invariant
            0 <= i <= orig.len(),
            rest@ == orig.skip(i),
            out@.map_values(|e: (PostConfig, String)| (e.0@, e.1@)) == orig.take(i).map_values(
                |e: (PostConfig, String)| dated(e),
            ),
        decreases rest@.len(),
    {
        let (config, content) = rest.remove(0);
        let PostConfig { title, date, slug, summary, projects } = config;
        let shown = match display_iso_date(date.as_str()) {
            Some(long) => long,
            None => date,
        };
        let entry = (PostConfig { title, date: shown, slug, summary, projects }, content);
        proof {
            assert(orig.skip(i)[0] == orig[i]);
            assert((entry.0@, entry.1@) == dated(orig[i]));
            assert(orig.take(i + 1).map_values(|e: (PostConfig, String)| dated(e)) =~= orig.take(
                i,
            ).map_values(|e: (PostConfig, String)| dated(e)).push(dated(orig[i])));
            assert(out@.push(entry).map_values(|e: (PostConfig, String)| (e.0@, e.1@))
                =~= out@.map_values(|e: (PostConfig, String)| (e.0@, e.1@)).push(
                (entry.0@, entry.1@),
            ));
            assert(orig.skip(i + 1) =~= orig.skip(i).drop_first());
            i = i + 1;
        }
        out.push(entry);
    }
    assert(orig.take(i) =~= orig);
    out
}


// ---------------------------------------------------------------------------
// Code highlighting
// ---------------------------------------------------------------------------

/// The events of rendered Markdown that code highlighting tells apart.
/// `Other` stands for any event not listed, by its position in the stream.
#[derive(Debug, Clone, PartialEq, Eq)]
pub enum MdEvent {
    /// The start of a code block, with the language of a fenced one.
    CodeBlockStart(Option<String>),
    CodeBlockEnd,
    Text(String),
    Html(String),
    Other(usize),
}

/// Whether `syntect`'s default syntax set (`SyntaxSet::load_defaults_nonewlines`)
/// has a syntax for a fence language (`find_syntax_by_token`).
pub uninterp spec fn syntax_known(token: Seq<char>) -> bool;

/// The HTML that `syntect::html::highlighted_html_for_string` writes for a
/// code text, in the default syntax set, with the syntax of the language
/// token (the `Plain Text` syntax for none) and the theme read from a
/// `.tmTheme` text (`ThemeSet::load_from_reader`); `None` when no syntax is
/// found, the theme text does not load, or highlighting fails. This one
/// name stands for those four outside calls together.
pub uninterp spec fn highlighted_block(
    code: Seq<char>,
    token: Option<Seq<char>>,
    theme_text: Seq<char>,
) -> Option<Seq<char>>;

/// An event of the result, before highlighting: an event as it was, or a
/// code block with its text and the language token in force for it.
pub enum Piece {
    Keep(MdEvent),
    Block(Seq<char>, Option<Seq<char>>),
}

/// The state of the walk over the events.
pub struct CodeScan {
    pub pieces: Seq<Piece>,
    pub in_code: bool,
    pub code: Seq<char>,
    pub token: Option<Seq<char>>,
}

/// The language token in force after a code block start: the block's fence
/// language when the syntax set knows it, the one in force before otherwise.
pub open spec fn token_after(lang: Option<String>, before: Option<Seq<char>>) -> Option<Seq<char>> {
    match lang {
        Some(t) => if syntax_known(t@) {
            Some(t@)
        } else {
            before
        },
        None => before,
    }
}

/// The effect of one event: a code block start opens a block and may change
/// the language in force; text inside a block is collected; the end of a
/// block gives one piece with the collected text and the language in force
/// (an end outside any block is dropped); every other event is kept.
pub open spec fn code_step(st: CodeScan, e: MdEvent) -> CodeScan {
    match e {
        MdEvent::CodeBlockStart(lang) => CodeScan { in_code: true, token: token_after(lang, st.token), ..st },
        MdEvent::CodeBlockEnd => if st.in_code {
            CodeScan {
                pieces: st.pieces.push(Piece::Block(st.code, st.token)),
                in_code: false,
                code: Seq::empty(),
                ..st
            }
        } else {
            st
        },
        MdEvent::Text(t) => if st.in_code {
            CodeScan { code: st.code + t@, ..st }
        } else {
            CodeScan { pieces: st.pieces.push(Piece::Keep(e)), ..st }
        },
        _ => CodeScan { pieces: st.pieces.push(Piece::Keep(e)), ..st },
    }
}

/// The walk over a sequence of events, from plain text in force.
pub open spec fn code_scan(es: Seq<MdEvent>) -> CodeScan
    decreases es.len(),
{
    if es.len() == 0 {
        CodeScan { pieces: Seq::empty(), in_code: false, code: Seq::empty(), token: None }
    } else {
        code_step(code_scan(es.drop_last()), es.last())
    }
}

/// The HTML that stands for a code block when highlighting fails.
pub open spec fn plain_code_html(code: Seq<char>) -> Seq<char> {
    "<pre><code>"@ + code + "</code></pre>"@
}

/// The HTML for a code block: highlighted when that succeeds, the plain
/// form otherwise.
pub open spec fn block_html(code: Seq<char>, token: Option<Seq<char>>, theme_text: Seq<char>) -> Seq<char> {
    match highlighted_block(code, token, theme_text) {
        Some(h) => h,
        None => plain_code_html(code),
    }
}

/// Whether an event of the result stands for a piece: a kept event is
/// unchanged, a code block becomes one HTML event holding its HTML.
pub open spec fn renders(out: MdEvent, p: Piece, theme_text: Seq<char>) -> bool {
    match p {
        Piece::Keep(e) => out == e,
        Piece::Block(code, token) => out matches MdEvent::Html(h) && h@ == block_html(code, token, theme_text),
    }
}

/// Calls `SyntaxSet::load_defaults_nonewlines` and `find_syntax_by_token`.
/// Claimed: whether a syntax is found is a function of the token.
#[verifier::external_body]
fn knows_syntax(token: &str) -> (r: bool)
    ensures
        r == syntax_known(token@),
{
    syntect::parsing::SyntaxSet::load_defaults_nonewlines().find_syntax_by_token(token).is_some()
}

/// The view of an optional string slice.
pub open spec fn optional_text(o: Option<&str>) -> Option<Seq<char>> {
    match o {
        Some(t) => Some(t@),
        None => None,
    }
}

/// Loads the default syntax set, finds the token's syntax (`find_syntax_by_token`,
/// or `find_syntax_by_name("Plain Text")` for none), reads the theme with
/// `ThemeSet::load_from_reader`, and calls `highlighted_html_for_string`.
/// Claimed: the result is a function of the code, the token and the theme text.
#[verifier::external_body]
fn highlight_block(code: &str, token: Option<&str>, theme_text: &str) -> (r: Option<String>)
    ensures
        match r {
            Some(h) => highlighted_block(code@, optional_text(token), theme_text@) == Some(h@),
            None => highlighted_block(code@, optional_text(token), theme_text@) is None,
        },
{
    let syntaxes = syntect::parsing::SyntaxSet::load_defaults_nonewlines();
    let syntax = match token {
        Some(t) => syntaxes.find_syntax_by_token(t),
        None => syntaxes.find_syntax_by_name("Plain Text"),
    }?;
    let theme = syntect::highlighting::ThemeSet::load_from_reader(&mut std::io::Cursor::new(theme_text)).ok()?;
    syntect::html::highlighted_html_for_string(code, &syntaxes, syntax, &theme).ok()
}

fn plain_code(code: &Vec<char>) -> (r: String)
    ensures
        r@ == plain_code_html(code@),
{
    let mut html = chars_of("<pre><code>");
    let mut body = crate::text::copy_range(code, 0, code.len());
    assert(body@ =~= code@);
    html.append(&mut body);
    html.append(&mut chars_of("</code></pre>"));
    string_of(&html)
}

fn block_html_of(code: &Vec<char>, token: &Option<String>, theme_text: &str) -> (r: String)
    ensures
        r@ == block_html(
            code@,
            match token {
                Some(t) => Some(t@),
                None => None,
            },
            theme_text@,
        ),
{
    let text = string_of(code);
    let highlighted = match token {
        Some(t) => highlight_block(text.as_str(), Some(t.as_str()), theme_text),
        None => highlight_block(text.as_str(), None, theme_text),
    };
    match highlighted {
        Some(h) => h,
        None => plain_code(code),
    }
}

/// Replaces each code block of a rendered Markdown stream by one HTML event:
/// the block's text highlighted with the syntax of the last fence language
/// that the default syntax set knows (plain text before any) and the given
/// theme, or, when highlighting fails, the text in `<pre><code>`. Text
/// outside code blocks and all other events pass unchanged, in order; an
/// end of a code block outside any block is dropped.
pub fn highlight_code(events: Vec<MdEvent>, theme_text: &str) -> (out: Vec<MdEvent>)
    ensures
        out@.len() == code_scan(events@).pieces.len(),
        forall|i: int|
            0 <= i < out@.len() ==> renders(#[trigger] out@[i], code_scan(events@).pieces[i], theme_text@),
{
    let ghost orig = events@;
    let mut token: Option<String> = None;
    let mut in_code = false;
    let mut code: Vec<char> = Vec::new();
    let mut out: Vec<MdEvent> = Vec::new();
    let mut rest = events;
    let ghost mut i: int = 0;
    assert(orig.skip(0) =~= orig);
    while rest.len() > 0
        invariant
            0 <= i <= orig.len(),
            rest@ == orig.skip(i),
            out@.len() == code_scan(orig.take(i)).pieces.len(),
            forall|j: int|
                0 <= j < out@.len() ==> renders(#[trigger] out@[j], code_scan(orig.take(i)).pieces[j], theme_text@),
            in_code == code_scan(orig.take(i)).in_code,
            code@ == code_scan(orig.take(i)).code,
            (match token {
                Some(t) => Some(t@),
                None => None,
            }) == code_scan(orig.take(i)).token,
        decreases rest@.len(),
    {
        let e = rest.remove(0);
        let ghost prev = code_scan(orig.take(i));
        proof {
            assert(orig.skip(i)[0] == orig[i]);
            assert(orig.take(i + 1).drop_last() =~= orig.take(i));
            assert(orig.take(i + 1).last() == orig[i]);
            assert(orig.skip(i + 1) =~= orig.skip(i).drop_first());
        }
        let ghost next = code_step(prev, e);
        match e {
            MdEvent::CodeBlockStart(lang) => {
                match lang {
                    Some(t) => {
                        if knows_syntax(t.as_str()) {
                            token = Some(t);
                        }
                    },
                    None => {},
                }
                in_code = true;
            },
            MdEvent::CodeBlockEnd => {
                if in_code {
                    let html = block_html_of(&code, &token, theme_text);
                    let ghost before = out@;
                    out.push(MdEvent::Html(html));
                    code = Vec::new();
                    in_code = false;
                    proof {
                        assert forall|j: int| 0 <= j < out@.len() implies renders(
                            #[trigger] out@[j],
                            next.pieces[j],
                            theme_text@,
                        ) by {
                            if j < before.len() {
                                assert(out@[j] == before[j]);
                            }
                        }
                    }
                }
            },
            MdEvent::Text(t) => {
                if in_code {
                    let mut tc = chars_of(t.as_str());
                    code.append(&mut tc);
                } else {
                    let ghost before = out@;
                    out.push(MdEvent::Text(t));
                    proof {
                        assert forall|j: int| 0 <= j < out@.len() implies renders(
                            #[trigger] out@[j],
                            next.pieces[j],
                            theme_text@,
                        ) by {
                            if j < before.len() {
                                assert(out@[j] == before[j]);
                            }
                        }
                    }
                }
            },
            other => {
                let ghost before = out@;
                out.push(other);
                proof {
                    assert forall|j: int| 0 <= j < out@.len() implies renders(
                        #[trigger] out@[j],
                        next.pieces[j],
                        theme_text@,
                    ) by {
                        if j < before.len() {
                            assert(out@[j] == before[j]);
                        }
                    }
                }
            },
        }
        proof {
            i = i + 1;
        }
    }
    assert(orig.take(i) =~= orig);
    out
}

/// The events that `pulldown_cmark::Parser::new` yields for a Markdown
/// text: code block starts and ends and text as such, any other event as
/// `Other` with its position.
pub uninterp spec fn markdown_event_list(md: Seq<char>) -> Seq<MdEvent>;

/// The HTML that `pulldown_cmark::html::push_html` writes for the events
/// that a plan stands for, `Other(i)` standing for the `i`-th event parsed
/// from the text. This one name stands for the two outside calls together:
/// `pulldown_cmark::Parser::new` on the text, and `push_html`.
pub uninterp spec fn planned_html(md: Seq<char>, plan: Seq<MdEvent>) -> Seq<char>;

/// Whether every `Other` event names a position of the parsed events.
pub open spec fn others_in_range(plan: Seq<MdEvent>, count: int) -> bool {
    forall|i: int| 0 <= i < plan.len() ==> ((#[trigger] plan[i]) matches MdEvent::Other(k) ==> k < count)
}

/// Calls `pulldown_cmark::Parser::new` and reads its events. Claimed: the
/// result is a function of the text, and `Other` carries its own position.
#[verifier::external_body]
pub(crate) fn markdown_events(md: &str) -> (r: Vec<MdEvent>)
    ensures
        r@ == markdown_event_list(md@),
        forall|i: int| 0 <= i < r@.len() ==> ((#[trigger] r@[i]) matches MdEvent::Other(k) ==> k == i),
{
    pulldown_cmark::Parser::new(md).enumerate().map(|(i, event)| match event {
        Event::Start(Tag::CodeBlock(CodeBlockKind::Fenced(lang))) => MdEvent::CodeBlockStart(Some(lang.to_string())),
        Event::Start(Tag::CodeBlock(CodeBlockKind::Indented)) => MdEvent::CodeBlockStart(None),
        Event::End(TagEnd::CodeBlock) => MdEvent::CodeBlockEnd,
        Event::Text(text) => MdEvent::Text(text.to_string()),
        _ => MdEvent::Other(i),
    }).collect()
}

/// Calls `pulldown_cmark::html::push_html` on the events that the plan
/// stands for, parsing the text again (with `pulldown_cmark::Parser::new`)
/// for the `Other` ones. Claimed: the result is a function of the text and
/// the plan.
#[verifier::external_body]
pub(crate) fn render_events(md: &str, plan: &Vec<MdEvent>) -> (html: String)
    requires
        others_in_range(plan@, markdown_event_list(md@).len() as int),
    ensures
        html@ == planned_html(md@, plan@),
{
    let parsed: Vec<Event> = pulldown_cmark::Parser::new(md).collect();
    let mut html = String::new();
    pulldown_cmark::html::push_html(&mut html, plan.iter().map(|e| match e {
        MdEvent::CodeBlockStart(Some(l)) => Event::Start(Tag::CodeBlock(CodeBlockKind::Fenced(CowStr::from(l.clone())))),
        MdEvent::CodeBlockStart(None) => Event::Start(Tag::CodeBlock(CodeBlockKind::Indented)),
        MdEvent::CodeBlockEnd => Event::End(TagEnd::CodeBlock),
        MdEvent::Text(t) => Event::Text(CowStr::from(t.clone())),
        MdEvent::Html(h) => Event::Html(CowStr::from(h.clone())),
        MdEvent::Other(i) => parsed[*i].clone(),
    }));
    html
}

/// Every kept piece of the walk is an event of the stream.
pub proof fn lemma_kept_events_come_from_input(es: Seq<MdEvent>)
    ensures
        forall|i: int|
            0 <= i < code_scan(es).pieces.len() ==> ((#[trigger] code_scan(es).pieces[i]) matches Piece::Keep(e)
                ==> es.contains(e)),
    decreases es.len(),
{
    if es.len() > 0 {
        let prev = es.drop_last();
        lemma_kept_events_come_from_input(prev);
        let before = code_scan(prev).pieces;
        let after = code_scan(es).pieces;
        assert forall|i: int| 0 <= i < after.len() implies ((#[trigger] after[i]) matches Piece::Keep(e)
            ==> es.contains(e)) by {
            if i < before.len() {
                assert(after[i] == before[i]);
                if let Piece::Keep(e) = before[i] {
                    let j = choose|j: int| 0 <= j < prev.len() && prev[j] == e;
                    assert(es[j] == e);
                }
            } else {
                if let Piece::Keep(e) = after[i] {
                    assert(e == es.last());
                    assert(es[es.len() - 1] == e);
                }
            }
        }
    }
}

/// Outside a code block the walk holds no collected code text.
proof fn lemma_closed_walk_holds_no_code(es: Seq<MdEvent>)
    ensures
        !code_scan(es).in_code ==> code_scan(es).code == Seq::<char>::empty(),
    decreases es.len(),
{
    if es.len() > 0 {
        lemma_closed_walk_holds_no_code(es.drop_last());
    }
}

/// The text events for a sequence of texts.
pub open spec fn text_events(ts: Seq<String>) -> Seq<MdEvent> {
    ts.map_values(|t: String| MdEvent::Text(t))
}

/// The characters of a sequence of texts, one after the other.
pub open spec fn joined_texts(ts: Seq<String>) -> Seq<char> {
    ts.map_values(|t: String| t@).flatten_alt()
}

/// After a block start that follows a closed walk, the walk is inside the
/// block, has collected exactly the texts read since the start, and has
/// added no piece.
proof fn lemma_open_block_collects(xs: Seq<MdEvent>, lang: Option<String>, ts: Seq<String>)
    requires
        !code_scan(xs).in_code,
    ensures
        ({
            let zs = xs + seq![MdEvent::CodeBlockStart(lang)] + text_events(ts);
            &&& code_scan(zs).in_code
            &&& code_scan(zs).code == joined_texts(ts)
            &&& code_scan(zs).pieces == code_scan(xs).pieces
            &&& code_scan(zs).token == token_after(lang, code_scan(xs).token)
        }),
    decreases ts.len(),
{
    let zs = xs + seq![MdEvent::CodeBlockStart(lang)] + text_events(ts);
    if ts.len() == 0 {
        lemma_closed_walk_holds_no_code(xs);
        assert(zs =~= xs.push(MdEvent::CodeBlockStart(lang)));
        assert(zs.drop_last() =~= xs);
        assert(joined_texts(ts) =~= Seq::<char>::empty());
    } else {
        let rest = ts.drop_last();
        lemma_open_block_collects(xs, lang, rest);
        assert(zs.drop_last() =~= xs + seq![MdEvent::CodeBlockStart(lang)] + text_events(rest));
        assert(zs.last() == MdEvent::Text(ts.last()));
        let views = ts.map_values(|t: String| t@);
        assert(views.drop_last() =~= rest.map_values(|t: String| t@));
        assert(views.last() == ts.last()@);
    }
}

/// A code block holds the text of its own events and nothing of the blocks
/// before it: after any events that leave no block open, a block start,
/// some texts and a block end give, as the last piece, a code block whose
/// text is exactly those texts one after the other, in the language in
/// force after its start; the pieces before it stay as they were.
pub proof fn law_code_block_holds_only_its_text(
    xs: Seq<MdEvent>,
    lang: Option<String>,
    ts: Seq<String>,
)
    requires
        !code_scan(xs).in_code,
    ensures
        ({
            let ys = xs + seq![MdEvent::CodeBlockStart(lang)] + text_events(ts) + seq![MdEvent::CodeBlockEnd];
            &&& code_scan(ys).pieces.drop_last() == code_scan(xs).pieces
            &&& code_scan(ys).pieces.last() == Piece::Block(joined_texts(ts), token_after(lang, code_scan(xs).token))
            &&& !code_scan(ys).in_code
        }),
{
    let zs = xs + seq![MdEvent::CodeBlockStart(lang)] + text_events(ts);
    let ys = zs + seq![MdEvent::CodeBlockEnd];
    lemma_open_block_collects(xs, lang, ts);
    assert(ys.drop_last() =~= zs);
    let before = code_scan(xs);
    assert(code_scan(ys).pieces =~= before.pieces.push(
        Piece::Block(joined_texts(ts), token_after(lang, before.token)),
    ));
    assert(code_scan(ys).pieces.drop_last() =~= before.pieces);
}

/// Renders Markdown to HTML with its code blocks highlighted: the parsed
/// events with each code block replaced as `highlight_code` does.
pub fn markdown_to_html(content: &str, theme_text: &str) -> (html: String)
    ensures
        exists|plan: Seq<MdEvent>|
            {
                &&& plan.len() == code_scan(markdown_event_list(content@)).pieces.len()
                &&& forall|i: int|
                    0 <= i < plan.len() ==> renders(
                        #[trigger] plan[i],
                        code_scan(markdown_event_list(content@)).pieces[i],
                        theme_text@,
                    )
                &&& html@ == planned_html(content@, plan)
            },
{
    let events = markdown_events(content);
    let ghost parsed = events@;
    let planned = highlight_code(events, theme_text);
    proof {
        lemma_kept_events_come_from_input(parsed);
        assert forall|i: int| 0 <= i < planned@.len() implies ((#[trigger] planned@[i]) matches MdEvent::Other(k)
            ==> k < parsed.len()) by {
            let piece = code_scan(parsed).pieces[i];
            assert(renders(planned@[i], piece, theme_text@));
            if let Piece::Keep(e) = piece {
                assert(parsed.contains(e));
                let j = choose|j: int| 0 <= j < parsed.len() && parsed[j] == e;
                assert(parsed[j] == planned@[i]);
            }
        }
    }
    let html = render_events(content, &planned);
    assert(html@ == planned_html(content@, planned@));
    html
}

} // verus!
