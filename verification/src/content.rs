//! Posts and pages: front matter, embedded pages, the project list, and
//! posts built from the publishing service's records.
use vstd::prelude::*;

use crate::dates::{display_iso_date, iso_long_date};
use crate::markdown::{commonmark_html, render_markdown};
use crate::text::{
    find_char, lemma_find_char, lemma_find_char_at, strip_cr, trim_start_by, chars_eq_str, chars_of, clean, clean_value, copy_range, find_from, find_seq, has_prefix, lines,
    lines_of, split, split_char, split_once, split_once_char, starts_with, starts_with_char,
    strip_all_prefix, string_of, trim, trim_start_matches, trimmed, views, CharClass,
};
use crate::types::{project_views, texts, Post, PostView, ProjectItem, ProjectView};

verus! {

// ---------------------------------------------------------------------------
// Front matter
// ---------------------------------------------------------------------------

/// The fields of a page's front matter; absent ones are empty.
pub struct Frontmatter {
    pub title: String,
    pub date: String,
    pub slug: String,
    pub summary: String,
}

/// The view of a [`Frontmatter`].
pub struct FrontmatterView {
    pub title: Seq<char>,
    pub date: Seq<char>,
    pub slug: Seq<char>,
    pub summary: Seq<char>,
}

impl View for Frontmatter {
    type V = FrontmatterView;

    open spec fn view(&self) -> FrontmatterView {
        FrontmatterView {
            title: self.title@,
            date: self.date@,
            slug: self.slug@,
            summary: self.summary@,
        }
    }
}

/// A `date` value as the page shows it: long-form when it is an ISO date,
/// as written otherwise.
pub open spec fn frontmatter_date(val: Seq<char>) -> Seq<char> {
    match iso_long_date(val) {
        Some(t) => t,
        None => val,
    }
}

/// The effect of one `key: value` line; other lines change nothing, and a
/// later line for a key replaces an earlier one.
pub open spec fn frontmatter_step(f: FrontmatterView, line: Seq<char>) -> FrontmatterView {
    match split_once_char(line, ':') {
        Some((k, v)) => {
            let key = trimmed(k, CharClass::Whitespace);
            let val = clean_value(v);
            if key == "title"@ {
                FrontmatterView { title: val, ..f }
            } else if key == "date"@ {
                FrontmatterView { date: frontmatter_date(val), ..f }
            } else if key == "slug"@ {
                FrontmatterView { slug: val, ..f }
            } else if key == "summary"@ {
                FrontmatterView { summary: val, ..f }
            } else {
                f
            }
        },
        None => f,
    }
}

/// The front matter read from a sequence of lines.
pub open spec fn frontmatter_of_lines(ls: Seq<Seq<char>>) -> FrontmatterView
    decreases ls.len(),
{
    if ls.len() == 0 {
        FrontmatterView {
            title: Seq::empty(),
            date: Seq::empty(),
            slug: Seq::empty(),
            summary: Seq::empty(),
        }
    } else {
        frontmatter_step(frontmatter_of_lines(ls.drop_last()), ls.last())
    }
}

/// The front matter read from a text.
pub open spec fn frontmatter_of(text: Seq<char>) -> FrontmatterView {
    frontmatter_of_lines(lines(text))
}

/// Reads `title`, `date`, `slug` and `summary` from front matter text.
pub fn parse_frontmatter(frontmatter: &str) -> (fm: Frontmatter)
    ensures
        fm@ == frontmatter_of(frontmatter@),
{
    let chars = chars_of(frontmatter);
    let ls = lines_of(&chars);
    let ghost all = views(ls@);
    let mut fm = Frontmatter {
        title: String::new(),
        date: String::new(),
        slug: String::new(),
        summary: String::new(),
    };
    let mut i: usize = 0;
    assert(all.take(0) =~= Seq::<Seq<char>>::empty());
    while i < ls.len()
        invariant
            i <= ls@.len(),
            all == views(ls@),
            all == lines(frontmatter@),
            fm@ == frontmatter_of_lines(all.take(i as int)),
        decreases ls@.len() - i,
    {
        let line = &ls[i];
        proof {
            assert(all.take(i + 1).drop_last() =~= all.take(i as int));
            assert(all.take(i + 1).last() == line@);
        }
        match split_once(line, ':') {
            Some((k, v)) => {
                let key = trim(&k, &CharClass::Whitespace);
                let val = clean(&v);
                if chars_eq_str(&key, "title") {
                    fm.title = string_of(&val);
                } else if chars_eq_str(&key, "date") {
                    let written = string_of(&val);
                    fm.date = match display_iso_date(written.as_str()) {
                        Some(long) => long,
                        None => written,
                    };
                } else if chars_eq_str(&key, "slug") {
                    fm.slug = string_of(&val);
                } else if chars_eq_str(&key, "summary") {
                    fm.summary = string_of(&val);
                }
            },
            None => {},
        }
        i = i + 1;
    }
    assert(all.take(i as int) =~= all);
    fm
}

// ---------------------------------------------------------------------------
// Embedded pages
// ---------------------------------------------------------------------------

/// The front matter delimiter.
pub open spec fn dashes() -> Seq<char> {
    seq!['-', '-', '-']
}

/// The front matter and the body of a page: the texts between the first
/// and second `---` and after the second (`splitn(3, "---")`); without two
/// delimiters, no front matter and the whole text as body.
pub open spec fn front_matter_parts(raw: Seq<char>) -> (Seq<char>, Seq<char>) {
    match find_seq(raw, dashes()) {
        Some(i) => {
            let rest = raw.skip(i + 3);
            match find_seq(rest, dashes()) {
                Some(j) => (rest.take(j), rest.skip(j + 3)),
                None => (Seq::empty(), raw),
            }
        },
        None => (Seq::empty(), raw),
    }
}

/// Splits a page into front matter and body.
pub fn split_page(raw: &Vec<char>) -> (r: (Vec<char>, Vec<char>))
    ensures
        (r.0@, r.1@) == front_matter_parts(raw@),
{
    let n = raw.len();
    let dash: Vec<char> = vec!['-', '-', '-'];
    assert(dash@ =~= dashes());
    assert(raw@.skip(0) =~= raw@);
    match find_from(raw, &dash, 0) {
        Some(i) => {
            proof {
                crate::text::lemma_find_seq(raw@, dashes());
                assert(crate::text::occurs_at(raw@, dashes(), i as int));
            }
            assert(i + 3 <= n);
            let from = i + 3;
            match find_from(raw, &dash, from) {
                Some(j) => {
                    proof {
                        crate::text::lemma_find_seq(raw@.skip(from as int), dashes());
                        assert(crate::text::occurs_at(raw@.skip(from as int), dashes(), j - from));
                    }
                    assert(j + 3 <= n);
                    let fm = copy_range(raw, from, j);
                    let body = copy_range(raw, j + 3, raw.len());
                    assert(fm@ =~= raw@.skip(from as int).take(j - from));
                    assert(body@ =~= raw@.skip(from as int).skip(j - from + 3));
                    (fm, body)
                },
                None => (Vec::new(), copy_range(raw, 0, raw.len())),
            }
        },
        None => (Vec::new(), copy_range(raw, 0, raw.len())),
    }
}

/// A page read from Markdown with front matter: the given title and slug
/// stand in for empty ones, and the body is rendered to HTML.
pub open spec fn embedded_post(raw: Seq<char>, default_title: Seq<char>, default_slug: Seq<char>) -> PostView {
    let (fm_text, body) = front_matter_parts(raw);
    let fm = frontmatter_of(fm_text);
    PostView {
        title: if fm.title.len() == 0 {
            default_title
        } else {
            fm.title
        },
        date: fm.date,
        slug: if fm.slug.len() == 0 {
            default_slug
        } else {
            fm.slug
        },
        summary: fm.summary,
        content: commonmark_html(body),
        projects: Seq::empty(),
    }
}

/// Parses an embedded Markdown page (with front matter) into a [`Post`].
pub fn parse_embedded_post(raw: &str, default_title: &str, default_slug: &str) -> (p: Post)
    ensures
        p@ == embedded_post(raw@, default_title@, default_slug@),
{
    let chars = chars_of(raw);
    let (fm_chars, body_chars) = split_page(&chars);
    let fm_text = string_of(&fm_chars);
    let fm = parse_frontmatter(fm_text.as_str());
    let title = if fm.title.as_str().is_empty() {
        default_title.to_owned()
    } else {
        fm.title
    };
    let slug = if fm.slug.as_str().is_empty() {
        default_slug.to_owned()
    } else {
        fm.slug
    };
    let body = string_of(&body_chars);
    let content = render_markdown(body.as_str());
    let p = Post { title, date: fm.date, slug, summary: fm.summary, content, projects: Vec::new() };
    assert(p@.projects =~= Seq::<ProjectView>::empty());
    p
}


// ---------------------------------------------------------------------------
// The project list
// ---------------------------------------------------------------------------

/// The technologies listed by a `tech` value: the brackets around it
/// removed, split at commas, each item cleaned, empty items left out.
pub open spec fn tech_list(val: Seq<char>) -> Seq<Seq<char>> {
    tech_items(
        split_char(trimmed(trimmed(val, CharClass::Exactly('[')), CharClass::Exactly(']')), ','),
    )
}

/// The non-empty cleaned items among `pieces`, in order.
pub open spec fn tech_items(pieces: Seq<Seq<char>>) -> Seq<Seq<char>>
    decreases pieces.len(),
{
    if pieces.len() == 0 {
        Seq::empty()
    } else {
        let rest = tech_items(pieces.drop_last());
        let v = clean_value(pieces.last());
        if v.len() > 0 {
            rest.push(v)
        } else {
            rest
        }
    }
}

/// A project's field after a `key: value` line; unknown keys change nothing.
pub open spec fn with_field(p: ProjectView, key: Seq<char>, val: Seq<char>) -> ProjectView {
    if key == "desc"@ {
        ProjectView { desc: val, ..p }
    } else if key == "link"@ {
        ProjectView { link: val, ..p }
    } else if key == "status"@ {
        ProjectView { status: val, ..p }
    } else if key == "tech"@ {
        ProjectView { tech: tech_list(val), ..p }
    } else {
        p
    }
}

/// A project with a name and every other field empty.
pub open spec fn named_project(name: Seq<char>) -> ProjectView {
    ProjectView {
        name: name,
        desc: Seq::empty(),
        tech: Seq::empty(),
        link: Seq::empty(),
        status: Seq::empty(),
    }
}

/// The state of a scan of front matter for projects.
pub struct ProjectScan {
    pub projects: Seq<ProjectView>,
    pub current: Option<ProjectView>,
    pub in_projects: bool,
    pub stopped: bool,
}

/// The finished projects with the one being read, if any, at the end.
pub open spec fn flushed(projects: Seq<ProjectView>, current: Option<ProjectView>) -> Seq<ProjectView> {
    match current {
        Some(p) => projects.push(p),
        None => projects,
    }
}

/// The effect of one line: `projects:` opens the list; inside it, a line
/// that is neither indented nor a list item and not blank ends the scan;
/// `- name:` starts a project; `key: value` sets a field of the current one.
pub open spec fn project_step(st: ProjectScan, line: Seq<char>) -> ProjectScan {
    let t = trimmed(line, CharClass::Whitespace);
    if st.stopped {
        st
    } else if has_prefix(line, "projects:"@) {
        ProjectScan { in_projects: true, ..st }
    } else if !st.in_projects {
        st
    } else if !starts_with_char(line, ' ') && !starts_with_char(line, '-') && t.len() > 0 {
        ProjectScan { stopped: true, ..st }
    } else if has_prefix(t, "- name:"@) {
        ProjectScan {
            projects: flushed(st.projects, st.current),
            current: Some(named_project(clean_value(strip_all_prefix(t, "- name:"@)))),
            ..st
        }
    } else {
        match st.current {
            Some(p) => match split_once_char(t, ':') {
                Some((k, v)) => ProjectScan { current: Some(with_field(p, k, clean_value(v))), ..st },
                None => st,
            },
            None => st,
        }
    }
}

/// The state before any line: outside the list, nothing read.
pub open spec fn initial_scan() -> ProjectScan {
    ProjectScan { projects: Seq::empty(), current: None, in_projects: false, stopped: false }
}

/// The scan state after a sequence of lines, from a given state.
pub open spec fn project_scan_from(st: ProjectScan, ls: Seq<Seq<char>>) -> ProjectScan
    decreases ls.len(),
{
    if ls.len() == 0 {
        st
    } else {
        project_step(project_scan_from(st, ls.drop_last()), ls.last())
    }
}

/// The scan state after a sequence of lines.
pub open spec fn project_scan(ls: Seq<Seq<char>>) -> ProjectScan {
    project_scan_from(initial_scan(), ls)
}

/// The projects that front matter lists under `projects:`.
pub open spec fn projects_of(frontmatter: Seq<char>) -> Seq<ProjectView> {
    let st = project_scan(lines(frontmatter));
    flushed(st.projects, st.current)
}

/// The view of an optional project.
pub open spec fn optional_project(p: Option<ProjectItem>) -> Option<ProjectView> {
    match p {
        Some(q) => Some(q@),
        None => None,
    }
}

struct ProjectScanner {
    projects: Vec<ProjectItem>,
    current: Option<ProjectItem>,
    in_projects: bool,
    stopped: bool,
}

impl ProjectScanner {
    spec fn scan_view(&self) -> ProjectScan {
        ProjectScan {
            projects: project_views(self.projects@),
            current: optional_project(self.current),
            in_projects: self.in_projects,
            stopped: self.stopped,
        }
    }
}

fn tech_of(val: &Vec<char>) -> (r: Vec<String>)
    ensures
        texts(r@) == tech_list(val@),
{
    let a = trim(val, &CharClass::Exactly('['));
    let b = trim(&a, &CharClass::Exactly(']'));
    let pieces = split(&b, ',');
    let ghost all = views(pieces@);
    let mut tech: Vec<String> = Vec::new();
    let mut i: usize = 0;
    assert(all.take(0) =~= Seq::<Seq<char>>::empty());
    assert(texts(tech@) =~= Seq::<Seq<char>>::empty());
    while i < pieces.len()
        invariant
            i <= pieces@.len(),
            all == views(pieces@),
            texts(tech@) == tech_items(all.take(i as int)),
        decreases pieces@.len() - i,
    {
        let v = clean(&pieces[i]);
        proof {
            assert(all.take(i + 1).drop_last() =~= all.take(i as int));
            assert(all.take(i + 1).last() == pieces@[i as int]@);
        }
        if v.len() > 0 {
            let t = string_of(&v);
            proof {
                assert(texts(tech@.push(t)) =~= texts(tech@).push(t@));
            }
            tech.push(t);
        }
        i = i + 1;
    }
    assert(all.take(i as int) =~= all);
    tech
}

fn set_field(p: ProjectItem, key: &Vec<char>, val: &Vec<char>) -> (r: ProjectItem)
    ensures
        r@ == with_field(p@, key@, val@),
{
    let mut p = p;
    if chars_eq_str(key, "desc") {
        p.desc = string_of(val);
    } else if chars_eq_str(key, "link") {
        p.link = string_of(val);
    } else if chars_eq_str(key, "status") {
        p.status = string_of(val);
    } else if chars_eq_str(key, "tech") {
        p.tech = tech_of(val);
    }
    p
}

fn scan_line(st: ProjectScanner, line: &Vec<char>) -> (r: ProjectScanner)
    ensures
        r.scan_view() == project_step(st.scan_view(), line@),
{
    if st.stopped {
        return st;
    }
    let projects_key = chars_of("projects:");
    if starts_with(line, &projects_key) {
        return ProjectScanner { in_projects: true, ..st };
    }
    if !st.in_projects {
        return st;
    }
    let t = trim(line, &CharClass::Whitespace);
    let indented = line.len() > 0 && line[0] == ' ';
    let item = line.len() > 0 && line[0] == '-';
    if !indented && !item && t.len() > 0 {
        return ProjectScanner { stopped: true, ..st };
    }
    let ProjectScanner { projects, current, in_projects, stopped } = st;
    let name_key = chars_of("- name:");
    if starts_with(&t, &name_key) {
        let mut projects = projects;
        match current {
            Some(p) => {
                proof {
                    assert(project_views(projects@.push(p)) =~= project_views(projects@).push(p@));
                }
                projects.push(p);
            },
            None => {},
        }
        let name = clean(&trim_start_matches(&t, &name_key));
        let fresh = ProjectItem {
            name: string_of(&name),
            desc: String::new(),
            tech: Vec::new(),
            link: String::new(),
            status: String::new(),
        };
        assert(texts(fresh.tech@) =~= Seq::<Seq<char>>::empty());
        assert(fresh@ == named_project(name@));
        return ProjectScanner { projects, current: Some(fresh), in_projects, stopped };
    }
    match current {
        Some(p) => match split_once(&t, ':') {
            Some((k, v)) => {
                let val = clean(&v);
                ProjectScanner { projects, current: Some(set_field(p, &k, &val)), in_projects, stopped }
            },
            None => ProjectScanner { projects, current: Some(p), in_projects, stopped },
        },
        None => ProjectScanner { projects, current: None, in_projects, stopped },
    }
}

proof fn lemma_scan_stays_stopped(ls: Seq<Seq<char>>, i: int)
    requires
        0 <= i <= ls.len(),
        project_scan(ls.take(i)).stopped,
    ensures
        project_scan(ls) == project_scan(ls.take(i)),
    decreases ls.len() - i,
{
    if i == ls.len() {
        assert(ls.take(i) =~= ls);
    } else {
        assert(ls.drop_last().take(i) =~= ls.take(i));
        lemma_scan_stays_stopped(ls.drop_last(), i);
    }
}

/// Reads the `projects:` list of front matter: each item starts with
/// `- name:` and may set `desc`, `link`, `status` and `tech` (a bracketed,
/// comma-separated list); the list ends at the next top-level key.
pub fn parse_projects(frontmatter: &str) -> (r: Vec<ProjectItem>)
    ensures
        project_views(r@) == projects_of(frontmatter@),
{
    let chars = chars_of(frontmatter);
    let ls = lines_of(&chars);
    let ghost all = views(ls@);
    let mut st = ProjectScanner { projects: Vec::new(), current: None, in_projects: false, stopped: false };
    let mut i: usize = 0;
    assert(all.take(0) =~= Seq::<Seq<char>>::empty());
    assert(project_views(st.projects@) =~= Seq::<ProjectView>::empty());
    while i < ls.len() && !st.stopped
        invariant
            i <= ls@.len(),
            all == views(ls@),
            all == lines(frontmatter@),
            st.scan_view() == project_scan(all.take(i as int)),
        decreases ls@.len() - i,
    {
        proof {
            assert(all.take(i + 1).drop_last() =~= all.take(i as int));
            assert(all.take(i + 1).last() == ls@[i as int]@);
        }
        st = scan_line(st, &ls[i]);
        i = i + 1;
    }
    proof {
        if i < ls@.len() {
            lemma_scan_stays_stopped(all, i as int);
        } else {
            assert(all.take(i as int) =~= all);
        }
    }
    let ProjectScanner { projects, current, in_projects: _, stopped: _ } = st;
    let mut projects = projects;
    match current {
        Some(p) => {
            proof {
                assert(project_views(projects@.push(p)) =~= project_views(projects@).push(p@));
            }
            projects.push(p);
        },
        None => {},
    }
    projects
}


/// The projects page: an embedded page (default title `PROJECT ARCHIVES`,
/// slug `projects`) that also carries the projects its front matter lists.
pub open spec fn projects_page(raw: Seq<char>) -> PostView {
    PostView {
        projects: projects_of(front_matter_parts(raw).0),
        ..embedded_post(raw, "PROJECT ARCHIVES"@, "projects"@)
    }
}

/// Builds the projects page from its Markdown source.
pub fn parse_projects_page(raw: &str) -> (p: Post)
    ensures
        p@ == projects_page(raw@),
{
    let chars = chars_of(raw);
    let (fm, _body) = split_page(&chars);
    let fm_text = string_of(&fm);
    let projects = parse_projects(fm_text.as_str());
    let mut post = parse_embedded_post(raw, "PROJECT ARCHIVES", "projects");
    post.projects = projects;
    post
}


// ---------------------------------------------------------------------------
// Laws
// ---------------------------------------------------------------------------

/// An embedded page has a title and a slug whenever defaults for them are given.
pub proof fn law_embedded_post_has_title_and_slug(raw: Seq<char>, default_title: Seq<char>, default_slug: Seq<char>)
    requires
        default_title.len() > 0,
        default_slug.len() > 0,
    ensures
        embedded_post(raw, default_title, default_slug).title.len() > 0,
        embedded_post(raw, default_title, default_slug).slug.len() > 0,
{
}

/// Whether every listed technology of every project is non-empty.
pub open spec fn tech_all_nonempty(ps: Seq<ProjectView>) -> bool {
    forall|i: int, j: int|
        0 <= i < ps.len() && 0 <= j < ps[i].tech.len() ==> (#[trigger] ps[i].tech[j]).len() > 0
}

proof fn lemma_tech_items_nonempty(pieces: Seq<Seq<char>>)
    ensures
        forall|j: int| 0 <= j < tech_items(pieces).len() ==> (#[trigger] tech_items(pieces)[j]).len() > 0,
    decreases pieces.len(),
{
    if pieces.len() > 0 {
        lemma_tech_items_nonempty(pieces.drop_last());
        let rest = tech_items(pieces.drop_last());
        let all = tech_items(pieces);
        assert forall|j: int| 0 <= j < all.len() implies (#[trigger] all[j]).len() > 0 by {
            if j < rest.len() {
                assert(all[j] == rest[j]);
            }
        }
    }
}

proof fn lemma_with_field_nonempty(p: ProjectView, key: Seq<char>, val: Seq<char>)
    requires
        forall|j: int| 0 <= j < p.tech.len() ==> (#[trigger] p.tech[j]).len() > 0,
    ensures
        forall|j: int| 0 <= j < with_field(p, key, val).tech.len() ==> (#[trigger] with_field(p, key, val).tech[j]).len() > 0,
{
    lemma_tech_items_nonempty(
        split_char(trimmed(trimmed(val, CharClass::Exactly('[')), CharClass::Exactly(']')), ','),
    );
}

proof fn lemma_scan_tech_nonempty(ls: Seq<Seq<char>>)
    ensures
        tech_all_nonempty(flushed(project_scan(ls).projects, project_scan(ls).current)),
        tech_all_nonempty(project_scan(ls).projects),
    decreases ls.len(),
{
    if ls.len() > 0 {
        lemma_scan_tech_nonempty(ls.drop_last());
        let st = project_scan(ls.drop_last());
        let line = ls.last();
        let t = trimmed(line, CharClass::Whitespace);
        let all = flushed(st.projects, st.current);
        assert(st.projects =~= all.take(st.projects.len() as int));
        if let Some(p) = st.current {
            assert(all.last() == p);
            assert(forall|j: int| 0 <= j < p.tech.len() ==> (#[trigger] p.tech[j]).len() > 0) by {
                assert forall|j: int| 0 <= j < p.tech.len() implies (#[trigger] p.tech[j]).len() > 0 by {
                    assert(all[all.len() - 1].tech[j] == p.tech[j]);
                }
            }
            if let Some((k, v)) = split_once_char(t, ':') {
                lemma_with_field_nonempty(p, k, clean_value(v));
            }
        }
        let next = project_scan(ls);
        let out = flushed(next.projects, next.current);
        assert forall|i: int, j: int| 0 <= i < out.len() && 0 <= j < out[i].tech.len() implies (
        #[trigger] out[i].tech[j]).len() > 0 by {
            if i < st.projects.len() {
                assert(st.projects[i] == all[i]);
            }
            if i < all.len() && next.projects =~= all {
                assert(out[i] == all[i]);
            }
        }
        assert forall|i: int, j: int| 0 <= i < next.projects.len() && 0 <= j < next.projects[i].tech.len() implies (
        #[trigger] next.projects[i].tech[j]).len() > 0 by {
            if i < st.projects.len() {
                assert(st.projects[i] == all[i]);
            }
            assert(next.projects[i] == out[i]);
        }
    }
}

/// Every technology that the project list gives is non-empty.
pub proof fn law_project_tech_nonempty(frontmatter: Seq<char>)
    ensures
        tech_all_nonempty(projects_of(frontmatter)),
{
    lemma_scan_tech_nonempty(lines(frontmatter));
}


// ---------------------------------------------------------------------------
// Laws of the project list
// ---------------------------------------------------------------------------

/// Each project starts afresh: inside the projects list, a `- name:` item
/// line (indented or not) closes the project being read, which joins the
/// list, and starts one whose name is the item's cleaned value and whose
/// description, technologies, link and status are all empty, whatever the
/// project before it held.
pub proof fn law_new_project_starts_empty(ls: Seq<Seq<char>>, line: Seq<char>)
    requires
        project_scan(ls).in_projects,
        !project_scan(ls).stopped,
        starts_with_char(line, ' ') || starts_with_char(line, '-'),
        has_prefix(trimmed(line, CharClass::Whitespace), "- name:"@),
    ensures
        ({
            let before = project_scan(ls);
            let after = project_scan(ls.push(line));
            &&& after.projects == flushed(before.projects, before.current)
            &&& after.current matches Some(p) && {
                &&& p.name == clean_value(strip_all_prefix(trimmed(line, CharClass::Whitespace), "- name:"@))
                &&& p.desc == Seq::<char>::empty()
                &&& p.tech == Seq::<Seq<char>>::empty()
                &&& p.link == Seq::<char>::empty()
                &&& p.status == Seq::<char>::empty()
            }
            &&& after.in_projects
            &&& !after.stopped
        }),
{
    reveal_strlit("projects:");
    reveal_strlit("- name:");
    assert(ls.push(line).drop_last() =~= ls);
    assert(!has_prefix(line, "projects:"@)) by {
        if has_prefix(line, "projects:"@) {
            assert(line.take(9)[0] == line[0]);
        }
    }
    assert(trimmed(line, CharClass::Whitespace).len() > 0) by {
        assert("- name:"@.len() == 7);
    }
}

/// Inside the projects list, an indented `key: value` line that is not a
/// `- name:` item sets one field of the project being read to the cleaned
/// value: `desc`, `link` or `status` as it is, `tech` as its list of
/// technologies; any other key changes nothing, and no other field changes.
/// The finished projects stay as they were.
pub proof fn law_field_line_sets_its_field(
    ls: Seq<Seq<char>>,
    line: Seq<char>,
    key: Seq<char>,
    value: Seq<char>,
)
    requires
        project_scan(ls).in_projects,
        !project_scan(ls).stopped,
        project_scan(ls).current is Some,
        starts_with_char(line, ' ') || starts_with_char(line, '-'),
        !has_prefix(trimmed(line, CharClass::Whitespace), "- name:"@),
        split_once_char(trimmed(line, CharClass::Whitespace), ':') == Some((key, value)),
    ensures
        ({
            let before = project_scan(ls);
            let after = project_scan(ls.push(line));
            let p = before.current->0;
            let val = clean_value(value);
            &&& after.projects == before.projects
            &&& after.in_projects && !after.stopped
            &&& after.current matches Some(q) && {
                &&& q.name == p.name
                &&& q.desc == (if key == "desc"@ { val } else { p.desc })
                &&& q.link == (if key == "link"@ { val } else { p.link })
                &&& q.status == (if key == "status"@ { val } else { p.status })
                &&& q.tech == (if key == "tech"@ { tech_list(val) } else { p.tech })
            }
        }),
{
    reveal_strlit("projects:");
    reveal_strlit("desc");
    reveal_strlit("link");
    reveal_strlit("status");
    reveal_strlit("tech");
    assert(ls.push(line).drop_last() =~= ls);
    assert(!has_prefix(line, "projects:"@)) by {
        if has_prefix(line, "projects:"@) {
            assert(line.take(9)[0] == line[0]);
        }
    }
    // The four keys differ in their first character.
    assert("desc"@[0] == 'd' && "link"@[0] == 'l' && "status"@[0] == 's' && "tech"@[0] == 't');
}

proof fn lemma_scan_concat(st: ProjectScan, xs: Seq<Seq<char>>, ys: Seq<Seq<char>>)
    ensures
        project_scan_from(st, xs + ys) == project_scan_from(project_scan_from(st, xs), ys),
    decreases ys.len(),
{
    if ys.len() == 0 {
        assert(xs + ys =~= xs);
    } else {
        lemma_scan_concat(st, xs, ys.drop_last());
        assert((xs + ys).drop_last() =~= xs + ys.drop_last());
        assert((xs + ys).last() == ys.last());
    }
}

proof fn lemma_stopped_stays(st: ProjectScan, ls: Seq<Seq<char>>)
    requires
        st.stopped,
    ensures
        project_scan_from(st, ls) == st,
    decreases ls.len(),
{
    if ls.len() > 0 {
        lemma_stopped_stays(st, ls.drop_last());
    }
}

proof fn lemma_scan_one(st: ProjectScan, l: Seq<char>)
    ensures
        project_scan_from(st, seq![l]) == project_step(st, l),
{
    assert(seq![l].drop_last() =~= Seq::<Seq<char>>::empty());
    assert(project_scan_from(st, seq![l].drop_last()) == st);
    assert(seq![l].last() == l);
}

/// The lines of a text without line breaks, followed by one.
proof fn lemma_lines_one(x: Seq<char>)
    requires
        forall|j: int| 0 <= j < x.len() ==> x[j] != '\n',
    ensures
        lines(x + seq!['\n']) == seq![strip_cr(x)],
{
    let xn = x + seq!['\n'];
    let n = x.len() as int;
    assert(xn[n] == '\n');
    assert forall|j: int| 0 <= j < n implies xn[j] != '\n' by {
        assert(xn[j] == x[j]);
    }
    lemma_find_char_at(xn, '\n', n);
    assert(xn.take(n) =~= x);
    assert(xn.skip(n + 1) =~= Seq::<char>::empty());
    assert(lines(Seq::<char>::empty()) =~= Seq::<Seq<char>>::empty());
    assert(lines(xn) == seq![strip_cr(xn.take(n))] + lines(xn.skip(n + 1)));
    assert(lines(xn) =~= seq![strip_cr(x)]);
}

/// The lines of `x`, a line break and `y` are those of `x` with the break,
/// then those of `y`.
proof fn lemma_lines_concat(x: Seq<char>, y: Seq<char>)
    ensures
        lines(x + seq!['\n'] + y) == lines(x + seq!['\n']) + lines(y),
    decreases x.len(),
{
    let nl = seq!['\n'];
    let s = x + nl + y;
    let xn = x + nl;
    lemma_find_char(x, '\n');
    match find_char(x, '\n') {
        Some(i) => {
            assert(s[i] == '\n' && xn[i] == '\n');
            assert forall|j: int| 0 <= j < i implies s[j] != '\n' && xn[j] != '\n' by {
                assert(s[j] == x[j] && xn[j] == x[j]);
            }
            lemma_find_char_at(s, '\n', i);
            lemma_find_char_at(xn, '\n', i);
            let rest = x.skip(i + 1);
            lemma_lines_concat(rest, y);
            assert(s.take(i) =~= x.take(i));
            assert(xn.take(i) =~= x.take(i));
            assert(s.skip(i + 1) =~= rest + nl + y);
            assert(xn.skip(i + 1) =~= rest + nl);
            assert(lines(s) =~= lines(xn) + lines(y));
        },
        None => {
            let n = x.len() as int;
            assert(s[n] == '\n' && xn[n] == '\n');
            assert forall|j: int| 0 <= j < n implies s[j] != '\n' && xn[j] != '\n' by {
                assert(s[j] == x[j] && xn[j] == x[j]);
            }
            lemma_find_char_at(s, '\n', n);
            lemma_lines_one(x);
            assert(s.take(n) =~= x);
            assert(s.skip(n + 1) =~= y);
            assert(lines(s) =~= lines(xn) + lines(y));
        },
    }
}

/// Trimming the start of a text that ends in a trimmed character.
proof fn lemma_trim_start_push(m: Seq<char>, c: char, cls: CharClass)
    requires
        cls.contains(c),
    ensures
        trim_start_by(m.push(c), cls) == if trim_start_by(m, cls).len() == 0 {
            Seq::<char>::empty()
        } else {
            trim_start_by(m, cls).push(c)
        },
    decreases m.len(),
{
    if m.len() == 0 {
        assert(m.push(c).drop_first() =~= Seq::<char>::empty());
        assert(trim_start_by(Seq::<char>::empty(), cls) =~= Seq::<char>::empty());
    } else if cls.contains(m[0]) {
        assert(m.push(c)[0] == m[0]);
        assert(m.push(c).drop_first() =~= m.drop_first().push(c));
        lemma_trim_start_push(m.drop_first(), c, cls);
    } else {
        assert(m.push(c)[0] == m[0]);
    }
}

/// A carriage return at the end of a line changes nothing the scan reads.
proof fn lemma_step_ignores_cr(st: ProjectScan, m: Seq<char>)
    ensures
        project_step(st, m.push('\r')) == project_step(st, m),
{
    let l = m.push('\r');
    let ws = CharClass::Whitespace;
    reveal_strlit("projects:");
    lemma_trim_start_push(m, '\r', ws);
    let ts = trim_start_by(m, ws);
    if ts.len() == 0 {
        assert(trim_start_by(l, ws) =~= Seq::<char>::empty());
    } else {
        assert(ts.push('\r').drop_last() =~= ts);
    }
    assert(trimmed(l, ws) == trimmed(m, ws));
    let p = "projects:"@;
    if has_prefix(l, p) {
        if p.len() == l.len() {
            assert(l.take(p.len() as int)[8] == p[8]);
        }
        assert(m.take(p.len() as int) =~= l.take(p.len() as int));
    }
    if has_prefix(m, p) {
        assert(l.take(p.len() as int) =~= m.take(p.len() as int));
    }
    assert(has_prefix(l, p) == has_prefix(m, p));
    if m.len() > 0 {
        assert(l[0] == m[0]);
    }
    assert(starts_with_char(l, ' ') == starts_with_char(m, ' '));
    assert(starts_with_char(l, '-') == starts_with_char(m, '-'));
}

/// An empty line changes nothing.
proof fn lemma_step_empty_line(st: ProjectScan)
    ensures
        project_step(st, Seq::<char>::empty()) == st,
{
    reveal_strlit("projects:");
    reveal_strlit("- name:");
    let e = Seq::<char>::empty();
    assert(trimmed(e, CharClass::Whitespace) =~= e);
    lemma_find_char(e, ':');
}

/// Adding a final line break to a text does not change the scan of its lines.
proof fn lemma_scan_final_break(a: Seq<char>)
    ensures
        project_scan(lines(a + seq!['\n'])) == project_scan(lines(a)),
    decreases a.len(),
{
    let nl = seq!['\n'];
    let an = a + nl;
    lemma_find_char(a, '\n');
    match find_char(a, '\n') {
        Some(i) => {
            assert(an[i] == '\n');
            assert forall|j: int| 0 <= j < i implies an[j] != '\n' by {
                assert(an[j] == a[j]);
            }
            lemma_find_char_at(an, '\n', i);
            let head = strip_cr(a.take(i));
            let rest = a.skip(i + 1);
            assert(an.take(i) =~= a.take(i));
            assert(an.skip(i + 1) =~= rest + nl);
            assert(lines(an) == seq![head] + lines(rest + nl));
            assert(lines(a) == seq![head] + lines(rest));
            lemma_scan_final_break(rest);
            let st = project_step(initial_scan(), head);
            lemma_scan_concat(initial_scan(), seq![head], lines(rest + nl));
            lemma_scan_concat(initial_scan(), seq![head], lines(rest));
            lemma_scan_one(initial_scan(), head);
            lemma_scan_concat_from(st, rest);
        },
        None => {
            let n = a.len() as int;
            assert(an[n] == '\n');
            assert forall|j: int| 0 <= j < n implies an[j] != '\n' by {
                assert(an[j] == a[j]);
            }
            lemma_lines_one(a);
            lemma_scan_one(initial_scan(), strip_cr(a));
            if a.len() == 0 {
                assert(strip_cr(a) =~= Seq::<char>::empty());
                lemma_step_empty_line(initial_scan());
            } else {
                assert(lines(a) =~= seq![a]);
                lemma_scan_one(initial_scan(), a);
                if a.last() == '\r' {
                    assert(a =~= a.drop_last().push('\r'));
                    lemma_step_ignores_cr(initial_scan(), a.drop_last());
                }
            }
        },
    }
}

/// The scan of the lines of `rest` with a final break, from any state, is
/// the scan of the lines of `rest`.
proof fn lemma_scan_concat_from(st: ProjectScan, rest: Seq<char>)
    ensures
        project_scan_from(st, lines(rest + seq!['\n'])) == project_scan_from(st, lines(rest)),
    decreases rest.len(),
{
    let nl = seq!['\n'];
    let rn = rest + nl;
    lemma_find_char(rest, '\n');
    match find_char(rest, '\n') {
        Some(i) => {
            assert(rn[i] == '\n');
            assert forall|j: int| 0 <= j < i implies rn[j] != '\n' by {
                assert(rn[j] == rest[j]);
            }
            lemma_find_char_at(rn, '\n', i);
            let head = strip_cr(rest.take(i));
            let tail = rest.skip(i + 1);
            assert(rn.take(i) =~= rest.take(i));
            assert(rn.skip(i + 1) =~= tail + nl);
            assert(lines(rn) == seq![head] + lines(tail + nl));
            assert(lines(rest) == seq![head] + lines(tail));
            lemma_scan_concat(st, seq![head], lines(tail + nl));
            lemma_scan_concat(st, seq![head], lines(tail));
            let st2 = project_scan_from(st, seq![head]);
            lemma_scan_concat_from(st2, tail);
        },
        None => {
            let n = rest.len() as int;
            assert(rn[n] == '\n');
            assert forall|j: int| 0 <= j < n implies rn[j] != '\n' by {
                assert(rn[j] == rest[j]);
            }
            lemma_lines_one(rest);
            lemma_scan_one(st, strip_cr(rest));
            if rest.len() == 0 {
                assert(strip_cr(rest) =~= Seq::<char>::empty());
                lemma_step_empty_line(st);
            } else {
                assert(lines(rest) =~= seq![rest]);
                lemma_scan_one(st, rest);
                if rest.last() == '\r' {
                    assert(rest =~= rest.drop_last().push('\r'));
                    lemma_step_ignores_cr(st, rest.drop_last());
                }
            }
        },
    }
}

proof fn lemma_scan_stays_initial(ls: Seq<Seq<char>>)
    requires
        forall|k: int| 0 <= k < ls.len() ==> !has_prefix(#[trigger] ls[k], "projects:"@),
    ensures
        project_scan(ls) == initial_scan(),
    decreases ls.len(),
{
    if ls.len() > 0 {
        lemma_scan_stays_initial(ls.drop_last());
        assert(!has_prefix(ls[ls.len() - 1], "projects:"@));
    }
}

proof fn lemma_scan_enters_list(ls: Seq<Seq<char>>, k: int)
    requires
        0 <= k < ls.len(),
        has_prefix(ls[k], "projects:"@),
    ensures
        project_scan(ls).in_projects || project_scan(ls).stopped,
    decreases ls.len(),
{
    if k < ls.len() - 1 {
        lemma_scan_enters_list(ls.drop_last(), k);
    }
}

/// Lines before the front matter that do not start with `projects:` change
/// nothing: the project list of `x`, a line break and `fm` is that of `fm`.
pub proof fn law_projects_ignore_lines_before(x: Seq<char>, fm: Seq<char>)
    requires
        forall|k: int| 0 <= k < lines(x).len() ==> !has_prefix(#[trigger] lines(x)[k], "projects:"@),
    ensures
        projects_of(x + seq!['\n'] + fm) == projects_of(fm),
{
    lemma_lines_concat(x, fm);
    lemma_scan_final_break(x);
    lemma_scan_stays_initial(lines(x));
    lemma_scan_concat(initial_scan(), lines(x + seq!['\n']), lines(fm));
}

/// After the list has opened, a line that is a new top-level key (not
/// indented, not a list item, not blank, not `projects:`) ends the scan:
/// nothing after it is read.
pub proof fn law_projects_end_at_top_level_key(a: Seq<char>, t: Seq<char>, b: Seq<char>)
    requires
        exists|k: int| 0 <= k < lines(a).len() && has_prefix(#[trigger] lines(a)[k], "projects:"@),
        forall|j: int| 0 <= j < t.len() ==> #[trigger] t[j] != '\n' && t[j] != '\r',
        !starts_with_char(t, ' '),
        !starts_with_char(t, '-'),
        trimmed(t, CharClass::Whitespace).len() > 0,
        !has_prefix(t, "projects:"@),
    ensures
        projects_of(a + seq!['\n'] + t + seq!['\n'] + b) == projects_of(a),
{
    let nl = seq!['\n'];
    let tail = t + nl + b;
    assert(a + nl + t + nl + b =~= a + nl + tail);
    lemma_lines_concat(a, tail);
    lemma_lines_concat(t, b);
    let tn = t + nl;
    assert(t.len() > 0) by {
        if t.len() == 0 {
            assert(trimmed(t, CharClass::Whitespace) =~= t);
        }
    }
    lemma_lines_one(t);
    assert(t.last() != '\r');
    assert(strip_cr(t) == t);
    let k = choose|k: int| 0 <= k < lines(a).len() && has_prefix(#[trigger] lines(a)[k], "projects:"@);
    lemma_scan_enters_list(lines(a), k);
    lemma_scan_final_break(a);
    let st = project_scan(lines(a + nl));
    lemma_scan_concat(initial_scan(), lines(a + nl), seq![t] + lines(b));
    lemma_scan_concat(st, seq![t], lines(b));
    lemma_scan_one(st, t);
    let stopped = project_step(st, t);
    lemma_stopped_stays(stopped, lines(b));
    assert(lines(a + nl + tail) =~= lines(a + nl) + (seq![t] + lines(b)));
}

} // verus!
