//! The site's data: projects, post metadata, full posts and the records of
//! the publishing service, with their mathematical views.
use vstd::prelude::*;

verus! {

/// The views of a vector of strings.
pub open spec fn texts(v: Seq<String>) -> Seq<Seq<char>> {
    v.map_values(|s: String| s@)
}

/// An individual project item displayed on the projects page.
#[derive(Debug, Clone, PartialEq, Eq)]
pub struct ProjectItem {
    pub name: String,
    pub desc: String,
    pub tech: Vec<String>,
    pub link: String,
    pub status: String,
}

/// The view of a [`ProjectItem`].
pub struct ProjectView {
    pub name: Seq<char>,
    pub desc: Seq<char>,
    pub tech: Seq<Seq<char>>,
    pub link: Seq<char>,
    pub status: Seq<char>,
}

impl View for ProjectItem {
    type V = ProjectView;

    open spec fn view(&self) -> ProjectView {
        ProjectView {
            name: self.name@,
            desc: self.desc@,
            tech: texts(self.tech@),
            link: self.link@,
            status: self.status@,
        }
    }
}

/// The views of a vector of projects.
pub open spec fn project_views(v: Seq<ProjectItem>) -> Seq<ProjectView> {
    v.map_values(|p: ProjectItem| p@)
}

/// Metadata of a post (no content).
#[derive(Debug, Clone, PartialEq, Eq)]
pub struct PostConfig {
    pub title: String,
    pub date: String,
    pub slug: String,
    pub summary: String,
    pub projects: Vec<ProjectItem>,
}

/// The view of a [`PostConfig`].
pub struct PostConfigView {
    pub title: Seq<char>,
    pub date: Seq<char>,
    pub slug: Seq<char>,
    pub summary: Seq<char>,
    pub projects: Seq<ProjectView>,
}

impl View for PostConfig {
    type V = PostConfigView;

    open spec fn view(&self) -> PostConfigView {
        PostConfigView {
            title: self.title@,
            date: self.date@,
            slug: self.slug@,
            summary: self.summary@,
            projects: project_views(self.projects@),
        }
    }
}

/// The view of a post's metadata, as a function.
pub open spec fn config_view_fn() -> spec_fn(PostConfig) -> PostConfigView {
    |p: PostConfig| p@
}

/// The views of a vector of post metadata.
pub open spec fn config_views(v: Seq<PostConfig>) -> Seq<PostConfigView> {
    v.map_values(config_view_fn())
}

/// A full post with rendered content.
#[derive(Debug, Clone, PartialEq, Eq)]
pub struct Post {
    pub title: String,
    pub date: String,
    pub slug: String,
    pub summary: String,
    pub content: String,
    pub projects: Vec<ProjectItem>,
}

/// The view of a [`Post`].
pub struct PostView {
    pub title: Seq<char>,
    pub date: Seq<char>,
    pub slug: Seq<char>,
    pub summary: Seq<char>,
    pub content: Seq<char>,
    pub projects: Seq<ProjectView>,
}

impl View for Post {
    type V = PostView;

    open spec fn view(&self) -> PostView {
        PostView {
            title: self.title@,
            date: self.date@,
            slug: self.slug@,
            summary: self.summary@,
            content: self.content@,
            projects: project_views(self.projects@),
        }
    }
}

/// A JSON value as the publishing service sends it. Numbers keep their
/// decimal text; object members keep their order, and a lookup takes the
/// first member with the key (the service's objects have distinct keys).
#[derive(Debug, PartialEq)]
pub enum JsonValue {
    Null,
    Bool(bool),
    Number(String),
    Text(String),
    Array(Vec<JsonValue>),
    Object(Vec<(String, JsonValue)>),
}

/// The answer to a request for the records of a collection.
#[derive(Debug, PartialEq)]
pub struct ListRecordsResponse {
    pub records: Vec<AtprotoRecord>,
}

/// One record: its address and the document it holds.
#[derive(Debug, PartialEq)]
pub struct AtprotoRecord {
    pub uri: String,
    pub value: StandardDocument,
}

/// A published document. Absent text fields are empty.
#[derive(Debug, PartialEq)]
pub struct StandardDocument {
    pub title: String,
    pub description: String,
    pub path: String,
    pub published_at: String,
    pub text_content: String,
    pub content: Option<JsonValue>,
}

} // verus!
