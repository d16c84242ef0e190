//! Posts bundled into the program: ordering them by their day-month-year
//! dates, finding one by slug, and serving bundled images as data URLs.
use base64::Engine;
use vstd::prelude::*;

use crate::order::{
    is_desc, key_of, lemma_sorted_desc_is_desc, lemma_sorted_desc_permutes, sort_desc_stable,
    sorted_desc, SortKey,
};
use crate::text::{
    chars_eq, chars_eq_str, chars_of, copy_range, lemma_find_char_absent, lemma_find_char_at,
    lowercase, split, split_char, string_of, strip_all_prefix, to_lowercase, trim_start_matches,
    views,
};

verus! {

/// Front matter of a bundled post.
#[derive(Debug, Clone, PartialEq, Eq)]
pub struct PostConfig {
    pub title: String,
    pub date: String,
    pub slug: String,
    pub summary: String,
}

/// A bundled post with its Markdown content.
#[derive(Debug, Clone, PartialEq, Eq)]
pub struct Post {
    pub title: String,
    pub date: String,
    pub slug: String,
    pub summary: String,
    pub content: String,
}

/// A bundled file: its path in the bundle and its bytes.
#[derive(Debug, Clone, PartialEq, Eq)]
pub struct EmbeddedFile {
    pub path: String,
    pub contents: Vec<u8>,
}

/// A `DD-MM-YYYY` date rewritten as `YYYY-MM-DD`, so that text order is
/// date order; other dates (not three `-`-separated parts) as written.
pub open spec fn sortable_date(d: Seq<char>) -> Seq<char> {
    let parts = split_char(d, '-');
    if parts.len() == 3 {
        parts[2] + seq!['-'] + parts[1] + seq!['-'] + parts[0]
    } else {
        d
    }
}

pub fn sortable_date_of(d: &Vec<char>) -> (r: Vec<char>)
    ensures
        r@ == sortable_date(d@),
{
    let parts = split(d, '-');
    proof {
        assert(views(parts@).len() == parts@.len());
    }
    if parts.len() == 3 {
        let mut r = copy_range(&parts[2], 0, parts[2].len());
        r.push('-');
        let mut middle = copy_range(&parts[1], 0, parts[1].len());
        r.append(&mut middle);
        r.push('-');
        let mut first = copy_range(&parts[0], 0, parts[0].len());
        r.append(&mut first);
        proof {
            assert(views(parts@)[0] == parts@[0]@);
            assert(views(parts@)[1] == parts@[1]@);
            assert(views(parts@)[2] == parts@[2]@);
            assert(parts@[0]@.subrange(0, parts@[0]@.len() as int) =~= parts@[0]@);
            assert(parts@[1]@.subrange(0, parts@[1]@.len() as int) =~= parts@[1]@);
            assert(parts@[2]@.subrange(0, parts@[2]@.len() as int) =~= parts@[2]@);
            assert(r@ =~= sortable_date(d@));
        }
        r
    } else {
        let r = copy_range(d, 0, d.len());
        assert(r@ =~= d@);
        r
    }
}

/// A text with no separator in it splits into itself alone.
proof fn lemma_split_without_separator(y: Seq<char>, c: char)
    requires
        forall|j: int| 0 <= j < y.len() ==> y[j] != c,
    ensures
        split_char(y, c) == seq![y],
{
    lemma_find_char_absent(y, c);
}

/// Splitting a text that starts with a separator-free part and a separator
/// gives that part, then the split of the rest.
proof fn lemma_split_after_first(x: Seq<char>, c: char, y: Seq<char>)
    requires
        forall|j: int| 0 <= j < x.len() ==> x[j] != c,
    ensures
        split_char(x + seq![c] + y, c) == seq![x] + split_char(y, c),
{
    let s = x + seq![c] + y;
    assert forall|j: int| 0 <= j < x.len() implies s[j] != c by {
        assert(s[j] == x[j]);
    }
    lemma_find_char_at(s, c, x.len() as int);
    assert(s.take(x.len() as int) =~= x);
    assert(s.skip(x.len() as int + 1) =~= y);
}

/// The sort key of a `DD-MM-YYYY` date is `YYYY-MM-DD`: the year first,
/// then the month, then the day, each as written.
pub proof fn law_sortable_date_is_year_month_day(dd: Seq<char>, mm: Seq<char>, yyyy: Seq<char>)
    requires
        forall|j: int| 0 <= j < dd.len() ==> dd[j] != '-',
        forall|j: int| 0 <= j < mm.len() ==> mm[j] != '-',
        forall|j: int| 0 <= j < yyyy.len() ==> yyyy[j] != '-',
    ensures
        sortable_date(dd + seq!['-'] + mm + seq!['-'] + yyyy) == yyyy + seq!['-'] + mm + seq!['-'] + dd,
{
    let d = dd + seq!['-'] + mm + seq!['-'] + yyyy;
    let rest = mm + seq!['-'] + yyyy;
    assert(d =~= dd + seq!['-'] + rest);
    lemma_split_after_first(dd, '-', rest);
    lemma_split_after_first(mm, '-', yyyy);
    lemma_split_without_separator(yyyy, '-');
    let parts = split_char(d, '-');
    assert(parts =~= seq![dd, mm, yyyy]);
}

impl SortKey for Post {
    open spec fn sort_key(&self) -> Seq<char> {
        sortable_date(self.date@)
    }

    fn key_chars(&self) -> (r: Vec<char>) {
        sortable_date_of(&chars_of(self.date.as_str()))
    }
}

/// The post that a front matter and a content make.
pub open spec fn post_of(entry: (PostConfig, String)) -> Post {
    Post {
        title: entry.0.title,
        date: entry.0.date,
        slug: entry.0.slug,
        summary: entry.0.summary,
        content: entry.1,
    }
}

/// The posts that the entries make, in order.
pub open spec fn posts_of(entries: Seq<(PostConfig, String)>) -> Seq<Post> {
    entries.map_values(|e: (PostConfig, String)| post_of(e))
}

/// All bundled posts, from their front matter and content, newest first by
/// their `DD-MM-YYYY` dates; posts with the same date keep their order.
pub fn get_all_posts(entries: Vec<(PostConfig, String)>) -> (r: Vec<Post>)
    ensures
        r@ == sorted_desc(posts_of(entries@), key_of::<Post>()),
{
    let ghost orig = entries@;
    let mut rest = entries;
    let mut posts: Vec<Post> = Vec::new();
    let ghost mut i: int = 0;
    assert(orig.skip(0) =~= orig);
    while rest.len() > 0
        invariant
            0 <= i <= orig.len(),
            rest@ == orig.skip(i),
            posts@ == posts_of(orig.take(i)),
        decreases rest@.len(),
    {
        let (config, content) = rest.remove(0);
        let post = Post {
            title: config.title,
            date: config.date,
            slug: config.slug,
            summary: config.summary,
            content,
        };
        proof {
            assert(orig.skip(i)[0] == orig[i]);
            assert(posts_of(orig.take(i + 1)) =~= posts_of(orig.take(i)).push(post));
            assert(orig.skip(i + 1) =~= orig.skip(i).drop_first());
            i = i + 1;
        }
        posts.push(post);
    }
    assert(orig.take(i) =~= orig);
    sort_desc_stable(posts)
}

/// The bundled posts come newest first by their `DD-MM-YYYY` dates, and
/// every post made from the entries is there, as often as it is made.
pub proof fn law_bundled_posts_newest_first(entries: Seq<(PostConfig, String)>)
    ensures
        is_desc(sorted_desc(posts_of(entries), key_of::<Post>()), key_of::<Post>()),
        sorted_desc(posts_of(entries), key_of::<Post>()).to_multiset() == posts_of(entries).to_multiset(),
{
    lemma_sorted_desc_is_desc(posts_of(entries), key_of::<Post>());
    lemma_sorted_desc_permutes(posts_of(entries), key_of::<Post>());
}

/// The index of the first post with the slug.
pub open spec fn slug_index(posts: Seq<Post>, slug: Seq<char>) -> Option<int>
    decreases posts.len(),
{
    if posts.len() == 0 {
        None
    } else if posts[0].slug@ == slug {
        Some(0)
    } else {
        match slug_index(posts.drop_first(), slug) {
            Some(k) => Some(k + 1),
            None => None,
        }
    }
}

proof fn lemma_slug_index_at(posts: Seq<Post>, slug: Seq<char>, i: int)
    requires
        0 <= i <= posts.len(),
        forall|j: int| 0 <= j < i ==> (#[trigger] posts[j]).slug@ != slug,
    ensures
        i < posts.len() && posts[i].slug@ == slug ==> slug_index(posts, slug) == Some(i),
        i == posts.len() ==> slug_index(posts, slug) is None,
    decreases i,
{
    if i > 0 {
        assert(posts[0].slug@ != slug);
        assert forall|j: int| 0 <= j < i - 1 implies (#[trigger] posts.drop_first()[j]).slug@
            != slug by {
            assert(posts.drop_first()[j] == posts[j + 1]);
        }
        lemma_slug_index_at(posts.drop_first(), slug, i - 1);
    }
}

/// The first post with the slug.
pub fn get_post_by_slug(posts: Vec<Post>, slug: &str) -> (r: Option<Post>)
    ensures
        match slug_index(posts@, slug@) {
            Some(i) => r == Some(posts@[i]),
            None => r is None,
        },
{
    let wanted = chars_of(slug);
    let mut i: usize = 0;
    while i < posts.len()
        invariant
            i <= posts@.len(),
            wanted@ == slug@,
            forall|j: int| 0 <= j < i ==> (#[trigger] posts@[j]).slug@ != slug@,
        decreases posts@.len() - i,
    {
        let name = chars_of(posts[i].slug.as_str());
        if chars_eq(&name, &wanted) {
            proof {
                lemma_slug_index_at(posts@, slug@, i as int);
            }
            let mut posts = posts;
            return Some(posts.remove(i));
        }
        i = i + 1;
    }
    proof {
        lemma_slug_index_at(posts@, slug@, i as int);
    }
    None
}

// ---------------------------------------------------------------------------
// Images
// ---------------------------------------------------------------------------

/// Whether two texts name the same path (`Path == Path`: equal components,
/// under the path rules of the platform the program is built for).
pub uninterp spec fn same_path(a: Seq<char>, b: Seq<char>) -> bool;

/// The extension of a path's file name (`Path::extension`, under the path
/// rules of the platform the program is built for).
pub uninterp spec fn path_extension(p: Seq<char>) -> Option<Seq<char>>;

/// The standard, padded Base64 encoding of bytes.
pub uninterp spec fn base64_standard(bytes: Seq<u8>) -> Seq<char>;

/// Compares `std::path::Path::new(a) == std::path::Path::new(b)`. Claimed:
/// the answer is a function of the two texts, and equal texts are the same path.
#[verifier::external_body]
pub(crate) fn paths_equal(a: &str, b: &str) -> (r: bool)
    ensures
        r == same_path(a@, b@),
        a@ == b@ ==> r,
{
    std::path::Path::new(a) == std::path::Path::new(b)
}

/// Calls `std::path::Path::extension` and reads the result as text. Claimed:
/// the result is a function of the path's text.
#[verifier::external_body]
pub(crate) fn extension_of(p: &str) -> (r: Option<String>)
    ensures
        match r {
            Some(e) => path_extension(p@) == Some(e@),
            None => path_extension(p@) is None,
        },
{
    std::path::Path::new(p).extension().and_then(|e| e.to_str()).map(|e| e.to_string())
}

/// Calls `base64::prelude::BASE64_STANDARD.encode`. Claimed: the result is a
/// function of the bytes, four characters for each started group of three.
#[verifier::external_body]
pub(crate) fn encode_base64(bytes: &Vec<u8>) -> (r: String)
    requires
        4 * ((bytes@.len() + 2) / 3) <= usize::MAX,
    ensures
        r@ == base64_standard(bytes@),
        r@.len() == 4 * ((bytes@.len() + 2) / 3),
{
    base64::prelude::BASE64_STANDARD.encode(bytes)
}

/// The MIME type for an image extension (already lowercase).
pub open spec fn mime_type(ext: Seq<char>) -> Seq<char> {
    if ext == "png"@ {
        "image/png"@
    } else if ext == "jpg"@ || ext == "jpeg"@ {
        "image/jpeg"@
    } else if ext == "gif"@ {
        "image/gif"@
    } else if ext == "svg"@ {
        "image/svg+xml"@
    } else if ext == "webp"@ {
        "image/webp"@
    } else {
        "application/octet-stream"@
    }
}

pub fn mime_type_of(ext: &Vec<char>) -> (r: &'static str)
    ensures
        r@ == mime_type(ext@),
{
    if chars_eq_str(ext, "png") {
        "image/png"
    } else if chars_eq_str(ext, "jpg") || chars_eq_str(ext, "jpeg") {
        "image/jpeg"
    } else if chars_eq_str(ext, "gif") {
        "image/gif"
    } else if chars_eq_str(ext, "svg") {
        "image/svg+xml"
    } else if chars_eq_str(ext, "webp") {
        "image/webp"
    } else {
        "application/octet-stream"
    }
}

/// An image path with leading `./` and then leading `/` removed.
pub open spec fn clean_image_path(path: Seq<char>) -> Seq<char> {
    strip_all_prefix(strip_all_prefix(path, "./"@), "/"@)
}

/// The index of the first file at the path.
pub open spec fn file_index(files: Seq<EmbeddedFile>, path: Seq<char>) -> Option<int>
    decreases files.len(),
{
    if files.len() == 0 {
        None
    } else if same_path(files[0].path@, path) {
        Some(0)
    } else {
        match file_index(files.drop_first(), path) {
            Some(k) => Some(k + 1),
            None => None,
        }
    }
}

proof fn lemma_file_index_at(files: Seq<EmbeddedFile>, path: Seq<char>, i: int)
    requires
        0 <= i <= files.len(),
        forall|j: int| 0 <= j < i ==> !same_path((#[trigger] files[j]).path@, path),
    ensures
        i < files.len() && same_path(files[i].path@, path) ==> file_index(files, path) == Some(i),
        i == files.len() ==> file_index(files, path) is None,
    decreases i,
{
    if i > 0 {
        assert(!same_path(files[0].path@, path));
        assert forall|j: int| 0 <= j < i - 1 implies !same_path(
            (#[trigger] files.drop_first()[j]).path@,
            path,
        ) by {
            assert(files.drop_first()[j] == files[j + 1]);
        }
        lemma_file_index_at(files.drop_first(), path, i - 1);
    }
}

/// The data URL of a bundled image: `data:<mime>;base64,<contents>`, with
/// the MIME type from the lowercased extension (`octet-stream` when there
/// is none); nothing when no bundled file has the path.
pub open spec fn image_data_url(files: Seq<EmbeddedFile>, path: Seq<char>) -> Option<Seq<char>> {
    let clean = clean_image_path(path);
    match file_index(files, clean) {
        Some(i) => {
            let ext = match path_extension(clean) {
                Some(e) => e,
                None => "octet-stream"@,
            };
            Some("data:"@ + mime_type(lowercase(ext)) + ";base64,"@ + base64_standard(files[i].contents@))
        },
        None => None,
    }
}

/// A bundled image is served with the MIME type of its extension, compared
/// without case: `png` as `image/png`, `jpg` and `jpeg` both as
/// `image/jpeg`, `gif` as `image/gif`, `svg` as `image/svg+xml`, `webp` as
/// `image/webp`, and any other as `application/octet-stream`; the contents
/// follow in base64.
pub proof fn law_image_mime_types(files: Seq<EmbeddedFile>, path: Seq<char>, i: int, e: Seq<char>)
    requires
        file_index(files, clean_image_path(path)) == Some(i),
        path_extension(clean_image_path(path)) == Some(e),
    ensures
        ({
            let ext = lowercase(e);
            let body = base64_standard(files[i].contents@);
            let url = image_data_url(files, path);
            &&& ext == "png"@ ==> url == Some("data:"@ + "image/png"@ + ";base64,"@ + body)
            &&& (ext == "jpg"@ || ext == "jpeg"@) ==> url == Some("data:"@ + "image/jpeg"@ + ";base64,"@ + body)
            &&& ext == "gif"@ ==> url == Some("data:"@ + "image/gif"@ + ";base64,"@ + body)
            &&& ext == "svg"@ ==> url == Some("data:"@ + "image/svg+xml"@ + ";base64,"@ + body)
            &&& ext == "webp"@ ==> url == Some("data:"@ + "image/webp"@ + ";base64,"@ + body)
            &&& (ext != "png"@ && ext != "jpg"@ && ext != "jpeg"@ && ext != "gif"@ && ext != "svg"@
                && ext != "webp"@) ==> url == Some(
                "data:"@ + "application/octet-stream"@ + ";base64,"@ + body,
            )
        }),
{
    reveal_strlit("png");
    reveal_strlit("jpg");
    reveal_strlit("jpeg");
    reveal_strlit("gif");
    reveal_strlit("svg");
    reveal_strlit("webp");
    let ext = lowercase(e);
    assert("jpg"@.len() != "jpeg"@.len());
    if ext == "jpg"@ || ext == "jpeg"@ {
        assert(ext != "png"@) by {
            assert(ext[0] != "png"@[0]);
        }
    }
    if ext == "gif"@ {
        assert(ext[0] == 'g');
        assert(ext != "png"@ && ext != "jpg"@ && ext != "jpeg"@) by {
            assert(ext[0] != "png"@[0] && ext[0] != "jpg"@[0] && ext[0] != "jpeg"@[0]);
        }
    }
    if ext == "svg"@ {
        assert(ext[0] == 's');
        assert(ext != "png"@ && ext != "jpg"@ && ext != "jpeg"@ && ext != "gif"@) by {
            assert(ext[0] != "png"@[0] && ext[0] != "jpg"@[0] && ext[0] != "jpeg"@[0] && ext[0]
                != "gif"@[0]);
        }
    }
    if ext == "webp"@ {
        assert(ext[0] == 'w');
        assert(ext != "png"@ && ext != "jpg"@ && ext != "jpeg"@ && ext != "gif"@ && ext != "svg"@) by {
            assert(ext[0] != "png"@[0] && ext[0] != "jpg"@[0] && ext[0] != "jpeg"@[0] && ext[0]
                != "gif"@[0] && ext[0] != "svg"@[0]);
        }
    }
}

/// Whether every file is small enough to encode.
pub open spec fn encodable(files: Seq<EmbeddedFile>) -> bool {
    forall|i: int| 0 <= i < files.len() ==> 4 * (((#[trigger] files[i]).contents@.len() + 2) / 3) <= usize::MAX
}

/// Serves a bundled image as a data URL.
pub fn get_post_image(path: &str, files: &Vec<EmbeddedFile>) -> (r: Option<String>)
    requires
        encodable(files@),
    ensures
        match r {
            Some(url) => image_data_url(files@, path@) == Some(url@),
            None => image_data_url(files@, path@) is None,
        },
{
    let p = chars_of(path);
    let dot_slash = chars_of("./");
    let slash = chars_of("/");
    let once = trim_start_matches(&p, &dot_slash);
    let clean_chars = trim_start_matches(&once, &slash);
    let clean = string_of(&clean_chars);
    let mut i: usize = 0;
    while i < files.len()
        invariant
            i <= files@.len(),
            encodable(files@),
            clean@ == clean_image_path(path@),
            forall|j: int| 0 <= j < i ==> !same_path((#[trigger] files@[j]).path@, clean@),
        decreases files@.len() - i,
    {
        if paths_equal(files[i].path.as_str(), clean.as_str()) {
            proof {
                lemma_file_index_at(files@, clean@, i as int);
            }
            let ext = match extension_of(clean.as_str()) {
                Some(e) => e,
                None => "octet-stream".to_owned(),
            };
            let lower = to_lowercase(ext.as_str());
            let mime = mime_type_of(&chars_of(lower.as_str()));
            assert(4 * ((files@[i as int].contents@.len() + 2) / 3) <= usize::MAX);
            let encoded = encode_base64(&files[i].contents);
            let mut url: Vec<char> = chars_of("data:");
            url.append(&mut chars_of(mime));
            url.append(&mut chars_of(";base64,"));
            url.append(&mut chars_of(encoded.as_str()));
            return Some(string_of(&url));
        }
        i = i + 1;
    }
    proof {
        lemma_file_index_at(files@, clean@, i as int);
    }
    None
}

} // verus!
