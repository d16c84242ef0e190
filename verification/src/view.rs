//! What the pages decide before they render: links to posts, the home
//! page's tiles and clock, project status, the colour theme, the post slug
//! from the address, and the frame-rate counter.
use vstd::prelude::*;

use crate::dates::{decimal, digit, zero_padded};
use crate::markdown::{commonmark_html, render_markdown};
use crate::text::{chars_eq_str, chars_of, string_of};
use crate::types::PostConfig;

verus! {

/// The address of a post's page.
pub open spec fn post_href(slug: Seq<char>) -> Seq<char> {
    "/blog/"@ + slug
}

pub fn post_path(slug: &str) -> (r: String)
    ensures
        r@ == post_href(slug@),
{
    let mut path = chars_of("/blog/");
    path.append(&mut chars_of(slug));
    string_of(&path)
}

/// The HTML of a post article's Markdown content.
pub fn article_html(content: &str) -> (html: String)
    ensures
        html@ == commonmark_html(content@),
{
    render_markdown(content)
}

/// The newest post for the wide tile and the next ones, at most three, for
/// the recent list (the posts are newest first).
pub fn home_tiles(posts: &Vec<PostConfig>) -> (r: (Option<&PostConfig>, Vec<&PostConfig>))
    ensures
        match r.0 {
            Some(p) => posts@.len() > 0 && *p == posts@[0],
            None => posts@.len() == 0,
        },
        r.1@.len() == if posts@.len() <= 1 {
            0
        } else if posts@.len() >= 4 {
            3
        } else {
            posts@.len() - 1
        },
        forall|i: int| 0 <= i < r.1@.len() ==> *(#[trigger] r.1@[i]) == posts@[i + 1],
{
    let latest = if posts.len() > 0 {
        Some(&posts[0])
    } else {
        None
    };
    let mut recent: Vec<&PostConfig> = Vec::new();
    let mut i: usize = 1;
    while i < posts.len() && i < 4
        invariant
            1 <= i <= 4,
            i <= posts@.len() || (i == 1 && posts@.len() == 0),
            recent@.len() == i - 1,
            forall|j: int| 0 <= j < recent@.len() ==> *(#[trigger] recent@[j]) == posts@[j + 1],
        decreases 4 - i,
    {
        recent.push(&posts[i]);
        i = i + 1;
    }
    (latest, recent)
}

/// Whether a project's status marks it as online.
pub fn is_online(status: &str) -> (r: bool)
    ensures
        r == (status@ == "ONLINE"@),
{
    chars_eq_str(&chars_of(status), "ONLINE")
}

fn digit_char(d: u32) -> (c: char)
    requires
        d < 10,
    ensures
        c == digit(d as int),
{
    if d == 0 {
        '0'
    } else if d == 1 {
        '1'
    } else if d == 2 {
        '2'
    } else if d == 3 {
        '3'
    } else if d == 4 {
        '4'
    } else if d == 5 {
        '5'
    } else if d == 6 {
        '6'
    } else if d == 7 {
        '7'
    } else if d == 8 {
        '8'
    } else {
        '9'
    }
}

/// The decimal numeral of a number.
pub fn decimal_chars(n: u32) -> (r: Vec<char>)
    ensures
        r@ == decimal(n as nat),
{
    let mut r: Vec<char> = Vec::new();
    let mut k = n;
    assert(decimal(n as nat) =~= decimal(k as nat) + r@);
    while k >= 10
        invariant
            decimal(n as nat) == decimal(k as nat) + r@,
        decreases k,
    {
        let ghost old_r = r@;
        r.insert(0, digit_char(k % 10));
        proof {
            assert(decimal(k as nat) == decimal((k / 10) as nat).push(digit((k % 10) as int)));
            assert(decimal((k / 10) as nat).push(digit((k % 10) as int)) + old_r =~= decimal(
                (k / 10) as nat,
            ) + r@);
        }
        k = k / 10;
    }
    let ghost old_r = r@;
    r.insert(0, digit_char(k));
    assert(decimal(k as nat) + old_r =~= r@);
    r
}

/// A number in at least two digits, as `{:02}` writes it.
pub fn two_digits(n: u32) -> (r: Vec<char>)
    ensures
        r@ == zero_padded(decimal(n as nat), 2),
{
    let mut r = decimal_chars(n);
    if r.len() < 2 {
        let ghost old_r = r@;
        r.insert(0, '0');
        assert(r@ =~= Seq::new((2 - old_r.len()) as nat, |i: int| '0') + old_r);
    }
    r
}

/// The clock's text, `HH:MM:SS`.
pub open spec fn clock(h: u32, m: u32, s: u32) -> Seq<char> {
    zero_padded(decimal(h as nat), 2) + seq![':'] + zero_padded(decimal(m as nat), 2) + seq![':']
        + zero_padded(decimal(s as nat), 2)
}

pub fn clock_text(hours: u32, minutes: u32, seconds: u32) -> (r: String)
    ensures
        r@ == clock(hours, minutes, seconds),
{
    let mut text = two_digits(hours);
    text.push(':');
    text.append(&mut two_digits(minutes));
    text.push(':');
    text.append(&mut two_digits(seconds));
    string_of(&text)
}

proof fn lemma_two_digit_width(n: u32)
    requires
        n < 100,
    ensures
        zero_padded(decimal(n as nat), 2).len() == 2,
{
    if n >= 10 {
        assert(decimal(n as nat) == decimal((n / 10) as nat).push(digit((n % 10) as int)));
        assert(decimal((n / 10) as nat).len() == 1);
    }
}

/// The clock's text is eight characters for any time of day.
pub proof fn law_clock_is_eight_characters(h: u32, m: u32, s: u32)
    requires
        h < 100,
        m < 100,
        s < 100,
    ensures
        clock(h, m, s).len() == 8,
{
    lemma_two_digit_width(h);
    lemma_two_digit_width(m);
    lemma_two_digit_width(s);
}

/// Whether the stored theme preference is the dark theme.
pub fn stored_theme_is_dark(stored: Option<&str>) -> (r: bool)
    ensures
        r == (stored matches Some(t) && t@ == "dark"@),
{
    match stored {
        Some(t) => chars_eq_str(&chars_of(t), "dark"),
        None => false,
    }
}

/// The theme's name, as the document attribute and the store hold it.
pub fn theme_name(dark: bool) -> (r: &'static str)
    ensures
        r@ == if dark {
            "dark"@
        } else {
            "light"@
        },
{
    if dark {
        "dark"
    } else {
        "light"
    }
}

/// The theme switch's label.
pub fn theme_label(dark: bool) -> (r: &'static str)
    ensures
        r@ == if dark {
            "[ ☾ DARK ]"@
        } else {
            "[ ☀ LIGHT ]"@
        },
{
    if dark {
        "[ ☾ DARK ]"
    } else {
        "[ ☀ LIGHT ]"
    }
}

/// The slug to fetch for a post page: the address's `slug`, unless it is
/// missing or empty.
pub fn requested_slug(param: Option<String>) -> (r: Option<String>)
    ensures
        match param {
            Some(s) => if s@.len() == 0 {
                r is None
            } else {
                r == Some(s)
            },
            None => r is None,
        },
{
    match param {
        Some(s) => {
            if s.as_str().is_empty() {
                None
            } else {
                Some(s)
            }
        },
        None => None,
    }
}

/// Counts animation frames and reports the count once a second has passed.
pub struct FpsCounter {
    pub frames: i32,
}

impl FpsCounter {
    pub fn new() -> (c: FpsCounter)
        ensures
            c.frames == 0,
    {
        FpsCounter { frames: 0 }
    }

    /// Counts a frame; when a second has passed since the last report,
    /// returns the count and starts again from zero.
    pub fn frame(&mut self, second_passed: bool) -> (report: Option<i32>)
        requires
            old(self).frames < i32::MAX,
        ensures
            second_passed ==> report == Some((old(self).frames + 1) as i32) && final(self).frames == 0,
            !second_passed ==> report is None && final(self).frames == old(self).frames + 1,
    {
        self.frames = self.frames + 1;
        if second_passed {
            let count = self.frames;
            self.frames = 0;
            Some(count)
        } else {
            None
        }
    }
}

} // verus!
