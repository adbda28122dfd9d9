//! Choosing the image of a dial bound to a stream: the stream's cover art
//! where its application is a media application, else an icon named after the
//! application.

use vstd::prelude::*;
use vstd::string::*;
use crate::text::{is_prefix_of, lowercase_of, starts_with, texts, to_lowercase};

verus! {

/// The icon of the master output.
pub const MASTER_ICON: &'static str = "icons/volume.png";

/// The icon of an application that has none of its own.
pub const FALLBACK_ICON: &'static str = "icons/unknown.png";

/// `p` occurs in `s`.
pub open spec fn text_contains(s: Seq<char>, p: Seq<char>) -> bool {
    exists|i: int| 0 <= i <= s.len() - p.len() && #[trigger] is_prefix_of(p, s.subrange(i, s.len() as int))
}

/// Whether `p` occurs in `s`.
pub fn contains_text(s: &str, p: &str) -> (r: bool)
    ensures
        r == text_contains(s@, p@),
{
    let n = s.unicode_len();
    let m = p.unicode_len();
    if m > n {
        return false;
    }
    if m == 0 {
        assert(s@.subrange(0, n as int).subrange(0, 0) =~= p@);
        assert(is_prefix_of(p@, s@.subrange(0, n as int)));
        return true;
    }
    let mut i: usize = 0;
    while i <= n - m
        invariant
            n == s@.len(),
            m == p@.len(),
            0 < m <= n,
            i <= n - m + 1,
            forall|k: int| 0 <= k < i ==> !#[trigger] is_prefix_of(p@, s@.subrange(k, n as int)),
        decreases n - m + 1 - i,
    {
        if starts_with(s.substring_char(i, n), p) {
            return true;
        }
        i += 1;
    }
    false
}

/// An application, named in lower case, whose streams may carry cover art.
pub open spec fn names_media_app(app_lower: Seq<char>, process_lower: Seq<char>) -> bool {
    text_contains(app_lower, "firefox"@) || text_contains(app_lower, "chrome"@) || text_contains(
        app_lower,
        "brave"@,
    ) || text_contains(app_lower, "spotify"@) || text_contains(app_lower, "vlc"@)
        || text_contains(process_lower, "mpv"@)
}

/// Whether the application, with name and process binary given in lower
/// case, may carry cover art.
pub fn is_media_app_lower(app_lower: &str, process_lower: &str) -> (r: bool)
    ensures
        r == names_media_app(app_lower@, process_lower@),
{
    contains_text(app_lower, "firefox") || contains_text(app_lower, "chrome") || contains_text(
        app_lower,
        "brave",
    ) || contains_text(app_lower, "spotify") || contains_text(app_lower, "vlc") || contains_text(
        process_lower,
        "mpv",
    )
}

/// The name under which the players of an application are sought: its
/// process binary, else its lower-case name.
pub open spec fn art_app_name(binary: Seq<char>, app_lower: Seq<char>) -> Seq<char> {
    if binary.len() > 0 {
        binary
    } else {
        app_lower
    }
}

/// Picks the name under which the players of an application are sought.
pub fn art_app_name_of(binary: &str, app_lower: &str) -> (r: String)
    ensures
        r@ == art_app_name(binary@, app_lower@),
{
    if !binary.is_empty() {
        String::from_str(binary)
    } else {
        String::from_str(app_lower)
    }
}

/// The icon files tried for an application, in order: for each of its
/// process binary, lower-case name and lower-case binary that is not empty,
/// `icons/<name>.<ext>` for each extension in turn.
pub open spec fn icon_paths(names: Seq<Seq<char>>) -> Seq<Seq<char>>
    decreases names.len(),
{
    if names.len() == 0 {
        seq![]
    } else {
        let rest = icon_paths(names.drop_first());
        if names[0].len() == 0 {
            rest
        } else {
            seq![
                "icons/"@ + names[0] + ".svg"@,
                "icons/"@ + names[0] + ".png"@,
                "icons/"@ + names[0] + ".jpg"@,
                "icons/"@ + names[0] + ".jpeg"@,
            ] + rest
        }
    }
}

/// `icons/<name><ext>`.
fn icon_path(name: &str, ext: &str) -> (r: String)
    ensures
        r@ == "icons/"@ + name@ + ext@,
{
    String::from_str("icons/").concat(name).concat(ext)
}

/// Lists the icon files to try for an application, in order.
pub fn icon_candidates(binary: &str, app_lower: &str, process_lower: &str) -> (r: Vec<String>)
    ensures
        texts(r@) == icon_paths(seq![binary@, app_lower@, process_lower@]),
{
    let names: Vec<&str> = vec![binary, app_lower, process_lower];
    let ghost all = seq![binary@, app_lower@, process_lower@];
    let mut out: Vec<String> = Vec::new();
    let mut i: usize = 3;
    assert(all.subrange(3, 3) =~= Seq::<Seq<char>>::empty());
    while i > 0
        invariant
            i <= 3,
            all == seq![binary@, app_lower@, process_lower@],
            names@.len() == 3,
            forall|k: int| 0 <= k < 3 ==> names@[k]@ == all[k],
            texts(out@) == icon_paths(all.subrange(i as int, 3)),
        decreases i,
    {
        i -= 1;
        let name = names[i];
        let ghost tail = all.subrange(i as int + 1, 3);
        assert(all.subrange(i as int, 3).drop_first() =~= tail);
        assert(all.subrange(i as int, 3)[0] == name@);
        if !name.is_empty() {
            let mut next: Vec<String> = Vec::new();
            next.push(icon_path(name, ".svg"));
            next.push(icon_path(name, ".png"));
            next.push(icon_path(name, ".jpg"));
            next.push(icon_path(name, ".jpeg"));
            let ghost front = texts(next@);
            let ghost after = texts(out@);
            let mut j: usize = 0;
            while j < out.len()
                invariant
                    j <= out.len(),
                    texts(out@) == after,
                    texts(next@) == front + after.subrange(0, j as int),
                decreases out.len() - j,
            {
                let ghost old_next = next@;
                let item = out[j].clone();
                next.push(item);
                assert(texts(next@) =~= texts(old_next).push(after[j as int]));
                assert(texts(next@) =~= front + after.subrange(0, j as int + 1));
                j += 1;
            }
            assert(after.subrange(0, out.len() as int) =~= after);
            out = next;
            assert(texts(out@) =~= icon_paths(all.subrange(i as int, 3)));
        }
    }
    assert(all.subrange(0, 3) =~= all);
    out
}

/// How to pick the image of a dial bound to a stream of an application.
pub struct IconPlan {
    /// Whether to look for cover art first.
    pub media_app: bool,
    /// The name under which the application's players are sought.
    pub art_app: String,
    /// The icon files to try, in order.
    pub icons: Vec<String>,
}

/// Plans the image of a dial bound to a stream of the application with this
/// name and process binary, comparing names in lower case.
pub fn icon_plan(app_name: &str, process_binary: &str) -> (r: IconPlan)
    ensures
        r.media_app == names_media_app(lowercase_of(app_name@), lowercase_of(process_binary@)),
        r.art_app@ == art_app_name(process_binary@, lowercase_of(app_name@)),
        texts(r.icons@) == icon_paths(
            seq![process_binary@, lowercase_of(app_name@), lowercase_of(process_binary@)],
        ),
{
    let app_lower = to_lowercase(app_name);
    let process_lower = to_lowercase(process_binary);
    IconPlan {
        media_app: is_media_app_lower(app_lower.as_str(), process_lower.as_str()),
        art_app: art_app_name_of(process_binary, app_lower.as_str()),
        icons: icon_candidates(process_binary, app_lower.as_str(), process_lower.as_str()),
    }
}

} // verus!

