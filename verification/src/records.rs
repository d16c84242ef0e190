//! Posts from the publishing service: the list of posts and single posts,
//! built from the records of the site's document collection.
use vstd::prelude::*;

use crate::dates::{display_rfc3339_date, rfc3339_long_date};
use crate::markdown::{commonmark_html, render_markdown};
use crate::order::{
    is_desc, key_of, lemma_sorted_desc_is_desc, lemma_sorted_desc_map, lemma_sorted_desc_permutes,
    lemma_sorted_desc_stable, sort_desc_stable, sorted_desc, with_key, SortKey,
};
use crate::text::{
    chars_eq, chars_eq_str, chars_of, copy_range, is_ascii_alnum, is_ascii_alnum_char,
    last_segment, last_segment_of, lowercase, string_of, to_lowercase,
};
use crate::types::{
    config_view_fn, config_views, AtprotoRecord, JsonValue, Post, PostConfig, PostConfigView,
    PostView, ProjectView, StandardDocument,
};

verus! {

// ---------------------------------------------------------------------------
// Slugs
// ---------------------------------------------------------------------------

/// Whether a slug starts with a 13-character record key (ASCII letters and
/// digits) and a `-`, and has more after it.
pub open spec fn has_tid_prefix(s: Seq<char>) -> bool {
    &&& s.len() > 14
    &&& s[13] == '-'
    &&& forall|i: int| 0 <= i < 13 ==> is_ascii_alnum(#[trigger] s[i])
}

/// A slug without its record-key prefix (`3mm7vpa7rt223-slug` to `slug`).
pub open spec fn without_tid_prefix(s: Seq<char>) -> Seq<char> {
    if has_tid_prefix(s) {
        s.skip(14)
    } else {
        s
    }
}

/// Strips the 13-character record-key prefix that some editors put before a slug.
/// Positions are counted in characters; as the prefix is ASCII, this agrees
/// with the byte positions of `str` indexing.
pub fn strip_tid_prefix(slug: &str) -> (r: String)
    ensures
        r@ == without_tid_prefix(slug@),
{
    let s = chars_of(slug);
    let n = s.len();
    let mut prefixed = n > 14 && s[13] == '-';
    let mut i: usize = 0;
    while prefixed && i < 13
        invariant
            n == s@.len(),
            prefixed ==> n > 14 && s@[13] == '-',
            i <= 13,
            prefixed ==> forall|j: int| 0 <= j < i ==> is_ascii_alnum(#[trigger] s@[j]),
            !prefixed ==> !has_tid_prefix(s@),
        decreases 13 - i,
    {
        if !is_ascii_alnum_char(s[i]) {
            prefixed = false;
        }
        i = i + 1;
    }
    if prefixed {
        let rest = copy_range(&s, 14, n);
        assert(rest@ =~= s@.skip(14));
        string_of(&rest)
    } else {
        string_of(&s)
    }
}

// ---------------------------------------------------------------------------
// Leaflet documents
// ---------------------------------------------------------------------------

/// The value of the first member named `key`.
pub open spec fn json_lookup(members: Seq<(String, JsonValue)>, key: Seq<char>) -> Option<JsonValue>
    decreases members.len(),
{
    if members.len() == 0 {
        None
    } else if members[0].0@ == key {
        Some(members[0].1)
    } else {
        json_lookup(members.drop_first(), key)
    }
}

/// `Value::get` with a key: an object's member, nothing for other values.
pub open spec fn json_get(v: JsonValue, key: Seq<char>) -> Option<JsonValue> {
    match v {
        JsonValue::Object(members) => json_lookup(members@, key),
        _ => None,
    }
}

/// The blocks of the first page of a Leaflet document (`pages[0].blocks`).
pub open spec fn leaflet_blocks(content: JsonValue) -> Option<Seq<JsonValue>> {
    match json_get(content, "pages"@) {
        Some(JsonValue::Array(pages)) => if pages@.len() > 0 {
            match json_get(pages@[0], "blocks"@) {
                Some(JsonValue::Array(blocks)) => Some(blocks@),
                _ => None,
            }
        } else {
            None
        },
        _ => None,
    }
}

/// The plain text of a block wrapper (`block.plaintext`), if it has one.
pub open spec fn block_text(wrapper: JsonValue) -> Option<Seq<char>> {
    match json_get(wrapper, "block"@) {
        Some(b) => match json_get(b, "plaintext"@) {
            Some(JsonValue::Text(t)) => Some(t@),
            _ => None,
        },
        None => None,
    }
}

/// The texts of the blocks, each followed by a blank line.
pub open spec fn blocks_text(blocks: Seq<JsonValue>) -> Seq<char>
    decreases blocks.len(),
{
    if blocks.len() == 0 {
        Seq::empty()
    } else {
        blocks_text(blocks.drop_last()) + match block_text(blocks.last()) {
            Some(t) => t + seq!['\n', '\n'],
            None => Seq::empty(),
        }
    }
}

/// The plain text of a Leaflet document; empty when it has no blocks.
pub open spec fn leaflet_text(content: JsonValue) -> Seq<char> {
    match leaflet_blocks(content) {
        Some(blocks) => blocks_text(blocks),
        None => Seq::empty(),
    }
}

/// The member of an object named `key`.
pub fn member<'a>(v: &'a JsonValue, key: &str) -> (r: Option<&'a JsonValue>)
    ensures
        match r {
            Some(x) => json_get(*v, key@) == Some(*x),
            None => json_get(*v, key@) is None,
        },
{
    match v {
        JsonValue::Object(members) => {
            let k = chars_of(key);
            let mut i: usize = 0;
            assert(members@.skip(0) =~= members@);
            assert(json_get(*v, key@) == json_lookup(members@, key@));
            while i < members.len()
                invariant
                    i <= members@.len(),
                    json_get(*v, key@) == json_lookup(members@, key@),
                    k@ == key@,
                    json_lookup(members@, key@) == json_lookup(members@.skip(i as int), key@),
                decreases members@.len() - i,
            {
                let name = chars_of(members[i].0.as_str());
                assert(members@.skip(i as int)[0] == members@[i as int]);
                if chars_eq(&name, &k) {
                    assert(members@[i as int].0@ == key@);
                    assert(json_lookup(members@.skip(i as int), key@) == Some(members@[i as int].1));
                    return Some(&members[i].1);
                }
                assert(members@.skip(i as int).drop_first() =~= members@.skip(i + 1));
                i = i + 1;
            }
            None
        },
        _ => None,
    }
}

fn block_text_of(wrapper: &JsonValue) -> (r: Option<&String>)
    ensures
        match r {
            Some(t) => block_text(*wrapper) == Some(t@),
            None => block_text(*wrapper) is None,
        },
{
    match member(wrapper, "block") {
        Some(b) => match member(b, "plaintext") {
            Some(JsonValue::Text(t)) => Some(t),
            _ => None,
        },
        None => None,
    }
}

fn blocks_of(content: &JsonValue) -> (r: Option<&Vec<JsonValue>>)
    ensures
        match r {
            Some(bs) => leaflet_blocks(*content) == Some(bs@),
            None => leaflet_blocks(*content) is None,
        },
{
    match member(content, "pages") {
        Some(JsonValue::Array(pages)) => {
            if pages.len() > 0 {
                match member(&pages[0], "blocks") {
                    Some(JsonValue::Array(blocks)) => Some(blocks),
                    _ => None,
                }
            } else {
                None
            }
        },
        _ => None,
    }
}

/// Extracts the plain text from Leaflet's nested, block-based content:
/// the text of each block of the first page, each followed by a blank line.
pub fn extract_leaflet_text(content: &JsonValue) -> (r: String)
    ensures
        r@ == leaflet_text(*content),
{
    let mut out: Vec<char> = Vec::new();
    match blocks_of(content) {
        Some(blocks) => {
            let mut i: usize = 0;
            assert(blocks@.take(0) =~= Seq::<JsonValue>::empty());
            while i < blocks.len()
                invariant
                    i <= blocks@.len(),
                    leaflet_blocks(*content) == Some(blocks@),
                    out@ == blocks_text(blocks@.take(i as int)),
                decreases blocks@.len() - i,
            {
                proof {
                    assert(blocks@.take(i + 1).drop_last() =~= blocks@.take(i as int));
                    assert(blocks@.take(i + 1).last() == blocks@[i as int]);
                }
                match block_text_of(&blocks[i]) {
                    Some(t) => {
                        let mut tc = chars_of(t.as_str());
                        tc.push('\n');
                        tc.push('\n');
                        out.append(&mut tc);
                    },
                    None => {
                        assert(out@ + Seq::<char>::empty() =~= out@);
                    },
                }
                i = i + 1;
            }
            assert(blocks@.take(i as int) =~= blocks@);
        },
        None => {},
    }
    string_of(&out)
}

// ---------------------------------------------------------------------------
// The list of posts
// ---------------------------------------------------------------------------

/// A record's key: the last segment of its address.
pub open spec fn record_key(r: AtprotoRecord) -> Seq<char> {
    last_segment(r.uri@)
}

/// A record's slug: the last segment of its document's path, or the
/// record's key when that is empty.
pub open spec fn record_slug(r: AtprotoRecord) -> Seq<char> {
    let seg = last_segment(r.value.path@);
    if seg.len() == 0 {
        record_key(r)
    } else {
        seg
    }
}

/// Whether a record holds one of the special pages (about me, projects),
/// which the post list leaves out.
pub open spec fn is_special_page(r: AtprotoRecord) -> bool {
    let key = record_key(r);
    let lower = lowercase(record_slug(r));
    key == "aboutme"@ || key == "projects"@ || lower == "aboutme"@ || lower == "projects"@
}

/// A publication time as the site shows it: the long form of its date, or
/// the text as written when it is not an RFC 3339 time stamp.
pub open spec fn display_published(s: Seq<char>) -> Seq<char> {
    match rfc3339_long_date(s) {
        Some(t) => t,
        None => s,
    }
}

/// The list entry for a record.
pub open spec fn listed_post(r: AtprotoRecord) -> PostConfigView {
    PostConfigView {
        title: r.value.title@,
        date: display_published(r.value.published_at@),
        slug: record_slug(r),
        summary: r.value.description@,
        projects: Seq::empty(),
    }
}

/// The list entries for the records that are not special pages, in order.
pub open spec fn listed_posts(rs: Seq<AtprotoRecord>) -> Seq<PostConfigView>
    decreases rs.len(),
{
    if rs.len() == 0 {
        Seq::empty()
    } else {
        let rest = listed_posts(rs.drop_last());
        if is_special_page(rs.last()) {
            rest
        } else {
            rest.push(listed_post(rs.last()))
        }
    }
}

/// The key by which the post list is ordered: the shown date, as text.
pub open spec fn by_date() -> spec_fn(PostConfigView) -> Seq<char> {
    |p: PostConfigView| p.date
}

impl SortKey for PostConfig {
    open spec fn sort_key(&self) -> Seq<char> {
        self.date@
    }

    fn key_chars(&self) -> (r: Vec<char>) {
        chars_of(self.date.as_str())
    }
}

fn entry_of(rec: &AtprotoRecord) -> (r: Option<PostConfig>)
    ensures
        match r {
            Some(p) => !is_special_page(*rec) && p@ == listed_post(*rec),
            None => is_special_page(*rec),
        },
{
    let uri = chars_of(rec.uri.as_str());
    let key = last_segment_of(&uri);
    let path = chars_of(rec.value.path.as_str());
    let seg = last_segment_of(&path);
    let slug_chars = if seg.len() == 0 {
        copy_range(&key, 0, key.len())
    } else {
        seg
    };
    assert(slug_chars@ == record_slug(*rec)) by {
        assert(key@.subrange(0, key@.len() as int) =~= key@);
    }
    let slug = string_of(&slug_chars);
    let lower = to_lowercase(slug.as_str());
    let lower_chars = chars_of(lower.as_str());
    if chars_eq_str(&key, "aboutme") || chars_eq_str(&key, "projects") || chars_eq_str(
        &lower_chars,
        "aboutme",
    ) || chars_eq_str(&lower_chars, "projects") {
        return None;
    }
    let date = match display_rfc3339_date(rec.value.published_at.as_str()) {
        Some(long) => long,
        None => rec.value.published_at.clone(),
    };
    let p = PostConfig {
        title: rec.value.title.clone(),
        date,
        slug,
        summary: rec.value.description.clone(),
        projects: Vec::new(),
    };
    assert(p@.projects =~= Seq::<ProjectView>::empty());
    Some(p)
}

/// The post list: an entry for each record that is not a special page,
/// newest first by the shown date compared as text; records with the same
/// date keep their order.
pub fn list_posts(records: &Vec<AtprotoRecord>) -> (r: Vec<PostConfig>)
    ensures
        config_views(r@) == sorted_desc(listed_posts(records@), by_date()),
{
    let mut unsorted: Vec<PostConfig> = Vec::new();
    let mut i: usize = 0;
    assert(records@.take(0) =~= Seq::<AtprotoRecord>::empty());
    assert(config_views(unsorted@) =~= Seq::<PostConfigView>::empty());
    while i < records.len()
        invariant
            i <= records@.len(),
            config_views(unsorted@) == listed_posts(records@.take(i as int)),
        decreases records@.len() - i,
    {
        proof {
            assert(records@.take(i + 1).drop_last() =~= records@.take(i as int));
            assert(records@.take(i + 1).last() == records@[i as int]);
        }
        match entry_of(&records[i]) {
            Some(p) => {
                proof {
                    assert(config_views(unsorted@.push(p)) =~= config_views(unsorted@).push(p@));
                }
                unsorted.push(p);
            },
            None => {},
        }
        i = i + 1;
    }
    assert(records@.take(i as int) =~= records@);
    let sorted = sort_desc_stable(unsorted);
    proof {
        assert forall|x: PostConfig| #[trigger] key_of::<PostConfig>()(x) == by_date()(
            config_view_fn()(x),
        ) by {}
        lemma_sorted_desc_map(unsorted@, key_of::<PostConfig>(), config_view_fn(), by_date());
    }
    sorted
}

// ---------------------------------------------------------------------------
// Single posts
// ---------------------------------------------------------------------------

/// Whether a record answers to a slug: its path's last segment with or
/// without the record-key prefix, or its record key.
pub open spec fn record_matches(r: AtprotoRecord, slug: Seq<char>) -> bool {
    let path_slug = last_segment(r.value.path@);
    without_tid_prefix(path_slug) == slug || record_key(r) == slug || path_slug == slug
}

/// The index of the first record that answers to a slug.
pub open spec fn first_match(rs: Seq<AtprotoRecord>, slug: Seq<char>) -> Option<int>
    decreases rs.len(),
{
    if rs.len() == 0 {
        None
    } else if record_matches(rs[0], slug) {
        Some(0)
    } else {
        match first_match(rs.drop_first(), slug) {
            Some(k) => Some(k + 1),
            None => None,
        }
    }
}

/// The Markdown of a document: its text content, or, when that is empty,
/// the plain text of its Leaflet content.
pub open spec fn post_markdown(doc: StandardDocument) -> Seq<char> {
    if doc.text_content@.len() == 0 {
        match doc.content {
            Some(c) => leaflet_text(c),
            None => Seq::empty(),
        }
    } else {
        doc.text_content@
    }
}

/// The post a document makes under a slug.
pub open spec fn document_post(doc: StandardDocument, slug: Seq<char>) -> PostView {
    PostView {
        title: doc.title@,
        date: display_published(doc.published_at@),
        slug: slug,
        summary: doc.description@,
        content: commonmark_html(post_markdown(doc)),
        projects: Seq::empty(),
    }
}

/// The post for a slug, from the first record that answers to it.
pub open spec fn found_post(rs: Seq<AtprotoRecord>, slug: Seq<char>) -> Option<PostView> {
    match first_match(rs, slug) {
        Some(i) => Some(document_post(rs[i].value, slug)),
        None => None,
    }
}

proof fn lemma_first_match_at(rs: Seq<AtprotoRecord>, slug: Seq<char>, i: int)
    requires
        0 <= i <= rs.len(),
        forall|j: int| 0 <= j < i ==> !record_matches(#[trigger] rs[j], slug),
    ensures
        i < rs.len() && record_matches(rs[i], slug) ==> first_match(rs, slug) == Some(i),
        i == rs.len() ==> first_match(rs, slug) is None,
    decreases i,
{
    if i > 0 {
        assert(!record_matches(rs[0], slug));
        assert forall|j: int| 0 <= j < i - 1 implies !record_matches(
            #[trigger] rs.drop_first()[j],
            slug,
        ) by {
            assert(rs.drop_first()[j] == rs[j + 1]);
        }
        lemma_first_match_at(rs.drop_first(), slug, i - 1);
    }
}

fn matches_slug(rec: &AtprotoRecord, slug: &Vec<char>) -> (b: bool)
    ensures
        b == record_matches(*rec, slug@),
{
    let uri = chars_of(rec.uri.as_str());
    let key = last_segment_of(&uri);
    let path = chars_of(rec.value.path.as_str());
    let path_slug = last_segment_of(&path);
    let path_slug_text = string_of(&path_slug);
    let stripped = strip_tid_prefix(path_slug_text.as_str());
    let stripped_chars = chars_of(stripped.as_str());
    chars_eq(&stripped_chars, slug) || chars_eq(&key, slug) || chars_eq(&path_slug, slug)
}

/// Builds the post for a slug from the first record that answers to it:
/// its title, summary and long-form date, the slug asked for, and its
/// Markdown (the text content, or the Leaflet text when that is empty)
/// rendered to HTML.
pub fn find_post(records: &Vec<AtprotoRecord>, slug: &str) -> (r: Option<Post>)
    ensures
        match r {
            Some(p) => found_post(records@, slug@) == Some(p@),
            None => found_post(records@, slug@) is None,
        },
{
    let wanted = chars_of(slug);
    let mut i: usize = 0;
    while i < records.len()
        invariant
            i <= records@.len(),
            wanted@ == slug@,
            forall|j: int| 0 <= j < i ==> !record_matches(#[trigger] records@[j], slug@),
        decreases records@.len() - i,
    {
        if matches_slug(&records[i], &wanted) {
            proof {
                lemma_first_match_at(records@, slug@, i as int);
            }
            let doc = &records[i].value;
            let date = match display_rfc3339_date(doc.published_at.as_str()) {
                Some(long) => long,
                None => doc.published_at.clone(),
            };
            let markdown = if doc.text_content.as_str().is_empty() {
                match &doc.content {
                    Some(c) => extract_leaflet_text(c),
                    None => String::new(),
                }
            } else {
                doc.text_content.clone()
            };
            let content = render_markdown(markdown.as_str());
            let p = Post {
                title: doc.title.clone(),
                date,
                slug: slug.to_owned(),
                summary: doc.description.clone(),
                content,
                projects: Vec::new(),
            };
            assert(p@.projects =~= Seq::<ProjectView>::empty());
            return Some(p);
        }
        i = i + 1;
    }
    proof {
        lemma_first_match_at(records@, slug@, i as int);
    }
    None
}


// ---------------------------------------------------------------------------
// Laws
// ---------------------------------------------------------------------------

/// Stripping a record-key prefix removes exactly fourteen characters or
/// nothing, so the result is always a suffix of the slug.
pub proof fn law_strip_tid_prefix_keeps_a_suffix(slug: Seq<char>)
    ensures
        without_tid_prefix(slug) == slug || (slug.len() > 14 && without_tid_prefix(slug) == slug.skip(14)),
        without_tid_prefix(slug).is_suffix_of(slug),
{
    if has_tid_prefix(slug) {
        assert(slug.skip(14) =~= slug.subrange(slug.len() - slug.skip(14).len(), slug.len() as int));
    } else {
        assert(slug =~= slug.subrange(0, slug.len() as int));
    }
}

/// The post list is ordered newest first: no entry's shown date sorts
/// (as text) above the date of an entry before it.
pub proof fn law_post_list_newest_first(records: Seq<AtprotoRecord>)
    ensures
        is_desc(sorted_desc(listed_posts(records), by_date()), by_date()),
{
    lemma_sorted_desc_is_desc(listed_posts(records), by_date());
}

/// The post list holds exactly the entries of the records that are not
/// special pages, each as often as it occurs.
pub proof fn law_post_list_keeps_entries(records: Seq<AtprotoRecord>)
    ensures
        sorted_desc(listed_posts(records), by_date()).to_multiset() == listed_posts(records).to_multiset(),
{
    lemma_sorted_desc_permutes(listed_posts(records), by_date());
}

/// Posts shown with the same date keep the order of their records.
pub proof fn law_post_list_same_date_keeps_order(records: Seq<AtprotoRecord>, date: Seq<char>)
    ensures
        with_key(sorted_desc(listed_posts(records), by_date()), by_date(), date) == with_key(
            listed_posts(records),
            by_date(),
            date,
        ),
{
    lemma_sorted_desc_stable(listed_posts(records), by_date(), date);
}

/// Whether a slug names a special page, in any letter case.
pub open spec fn is_special_slug(slug: Seq<char>) -> bool {
    lowercase(slug) == "aboutme"@ || lowercase(slug) == "projects"@
}

proof fn lemma_listed_posts_not_special(records: Seq<AtprotoRecord>)
    ensures
        forall|i: int|
            0 <= i < listed_posts(records).len() ==> !is_special_slug(
                (#[trigger] listed_posts(records)[i]).slug,
            ),
    decreases records.len(),
{
    if records.len() > 0 {
        lemma_listed_posts_not_special(records.drop_last());
        let rest = listed_posts(records.drop_last());
        let all = listed_posts(records);
        assert forall|i: int| 0 <= i < all.len() implies !is_special_slug((#[trigger] all[i]).slug) by {
            if i < rest.len() {
                assert(all[i] == rest[i]);
            } else {
                assert(all[i] == listed_post(records.last()));
            }
        }
    }
}

/// No entry of the post list is the about page or the projects page.
pub proof fn law_post_list_has_no_special_pages(records: Seq<AtprotoRecord>)
    ensures
        forall|i: int|
            0 <= i < sorted_desc(listed_posts(records), by_date()).len() ==> !is_special_slug(
                (#[trigger] sorted_desc(listed_posts(records), by_date())[i]).slug,
            ),
{
    broadcast use vstd::seq_lib::group_to_multiset_ensures;

    let unsorted = listed_posts(records);
    let sorted = sorted_desc(unsorted, by_date());
    lemma_listed_posts_not_special(records);
    lemma_sorted_desc_permutes(unsorted, by_date());
    assert forall|i: int| 0 <= i < sorted.len() implies !is_special_slug(
        (#[trigger] sorted[i]).slug,
    ) by {
        assert(sorted.contains(sorted[i]));
        assert(sorted.to_multiset().count(sorted[i]) > 0);
        assert(unsorted.contains(sorted[i]));
        let j = choose|j: int| 0 <= j < unsorted.len() && unsorted[j] == sorted[i];
        assert(!is_special_slug(unsorted[j].slug));
    }
}

proof fn lemma_first_match_some(rs: Seq<AtprotoRecord>, slug: Seq<char>)
    ensures
        first_match(rs, slug) matches Some(i) ==> 0 <= i < rs.len() && record_matches(rs[i], slug),
        first_match(rs, slug) is None ==> forall|j: int| 0 <= j < rs.len() ==> !record_matches(#[trigger] rs[j], slug),
    decreases rs.len(),
{
    if rs.len() > 0 && !record_matches(rs[0], slug) {
        lemma_first_match_some(rs.drop_first(), slug);
        assert forall|j: int| 0 <= j < rs.len() && first_match(rs, slug) is None implies !record_matches(
            #[trigger] rs[j],
            slug,
        ) by {
            if j > 0 {
                assert(rs[j] == rs.drop_first()[j - 1]);
            }
        }
    }
}

/// A post is found for a slug exactly when some record answers to it, and
/// the post found carries the slug asked for.
pub proof fn law_found_post_answers_to_slug(records: Seq<AtprotoRecord>, slug: Seq<char>)
    ensures
        found_post(records, slug) is Some <==> exists|i: int| 0 <= i < records.len() && record_matches(#[trigger] records[i], slug),
        found_post(records, slug) matches Some(p) ==> p.slug == slug,
{
    lemma_first_match_some(records, slug);
    if let Some(i) = first_match(records, slug) {
        assert(record_matches(records[i], slug));
    }
}

/// The post found for a slug is made from the first record that answers to
/// it: its title, its summary, the slug asked for, and as content its text
/// content rendered from Markdown whenever that text is not empty, whatever
/// Leaflet content the document also has; only an empty text content falls
/// back to the Leaflet plain text (or to nothing when there is none).
pub proof fn law_found_post_content(rs: Seq<AtprotoRecord>, slug: Seq<char>, i: int)
    requires
        0 <= i < rs.len(),
        record_matches(rs[i], slug),
        forall|j: int| 0 <= j < i ==> !record_matches(#[trigger] rs[j], slug),
    ensures
        found_post(rs, slug) matches Some(p) && {
            let doc = rs[i].value;
            &&& p.title == doc.title@
            &&& p.summary == doc.description@
            &&& p.slug == slug
            &&& doc.text_content@.len() > 0 ==> p.content == commonmark_html(doc.text_content@)
            &&& doc.text_content@.len() == 0 ==> p.content == match doc.content {
                Some(c) => commonmark_html(leaflet_text(c)),
                None => commonmark_html(Seq::empty()),
            }
        },
{
    lemma_first_match_at(rs, slug, i);
}

/// The plain text of a Leaflet document is empty or ends in a blank line.
pub proof fn law_leaflet_text_ends_with_blank_line(content: JsonValue)
    ensures
        leaflet_text(content).len() == 0 || (leaflet_text(content).len() >= 2
            && leaflet_text(content).last() == '\n' && leaflet_text(content)[leaflet_text(
            content,
        ).len() - 2] == '\n'),
{
    if let Some(blocks) = leaflet_blocks(content) {
        lemma_blocks_text_ends(blocks);
    }
}

proof fn lemma_blocks_text_ends(blocks: Seq<JsonValue>)
    ensures
        blocks_text(blocks).len() == 0 || (blocks_text(blocks).len() >= 2 && blocks_text(blocks).last()
            == '\n' && blocks_text(blocks)[blocks_text(blocks).len() - 2] == '\n'),
    decreases blocks.len(),
{
    if blocks.len() > 0 {
        lemma_blocks_text_ends(blocks.drop_last());
        let before = blocks_text(blocks.drop_last());
        match block_text(blocks.last()) {
            Some(t) => {
                let tail = t + seq!['\n', '\n'];
                assert(blocks_text(blocks) == before + tail);
                assert((before + tail).last() == '\n');
                assert((before + tail)[(before + tail).len() - 2] == '\n');
            },
            None => {
                assert(blocks_text(blocks) =~= before);
            },
        }
    }
}

} // verus!
