//! The decisions the viewer takes on what reaches it: IPC messages from the
//! editor and navigation requests from the web view.

use vstd::prelude::*;
use vstd::string::StringSliceAdditionalSpecFns;
use vstd::utf8::encode_utf8;
use vstd::slice::slice_to_vec;
use crate::percent::{percent_decode, percent_decoded};
use crate::render::{comrak_html, render_markdown};
use crate::text::lossy_utf8;

verus! {

/// A message from the editor, one JSON object per line on standard input.
pub enum IpcMessage {
    /// New buffer content, with the directory its relative links resolve against.
    Content { markdown: String, base_dir: Option<String> },
    /// The cursor moved to a source line.
    Scroll { line: usize },
}

/// An event for the window's event loop.
pub enum AppEvent {
    /// Show new HTML, resolving relative paths against the directory
    /// `base_dir` (the bytes of its path).
    UpdateHtml { html: String, base_dir: Vec<u8> },
    /// Scroll to a source line.
    ScrollTo(usize),
    /// The watched file changed; read and show it again.
    ReloadFile(Vec<u8>),
}

/// Turns an editor message into the event for the window. `fallback_dir`
/// is the path of the base directory used when the message names none.
pub fn ipc_to_event(msg: IpcMessage, fallback_dir: Vec<u8>) -> (ev: AppEvent)
    ensures
        match msg {
            IpcMessage::Content { markdown, base_dir } => ev matches AppEvent::UpdateHtml {
                html,
                base_dir: dir,
            } && html@ == comrak_html(markdown@, true, true, true) && dir@ == match base_dir {
                Some(d) => encode_utf8(d@),
                None => fallback_dir@,
            },
            IpcMessage::Scroll { line } => ev == AppEvent::ScrollTo(line),
        },
{
    match msg {
        IpcMessage::Content { markdown, base_dir } => {
            let dir = match base_dir {
                Some(d) => slice_to_vec(d.as_str().as_bytes()),
                None => fallback_dir,
            };
            let html = render_markdown(markdown.as_str());
            AppEvent::UpdateHtml { html, base_dir: dir }
        },
        IpcMessage::Scroll { line } => AppEvent::ScrollTo(line),
    }
}

/// What to do with a navigation request from the web view.
pub enum NavigationDecision {
    /// A web link: open it in the default browser, not in the preview.
    OpenExternal,
    /// A local Markdown link: check the decoded path and open it in a new
    /// preview window; the preview itself stays.
    OpenMarkdown(String),
    /// Anything else (the page itself, images, anchors) loads normally.
    Allow,
}

/// Whether `pat` occurs in `s`.
pub open spec fn occurs_in(s: Seq<char>, pat: Seq<char>) -> bool {
    exists|k: int| 0 <= k && k + pat.len() <= s.len() && #[trigger] s.subrange(k, k + pat.len()) == pat
}

/// `str::trim_start_matches` with a non-empty pattern: removes the pattern
/// from the front for as long as it is there.
pub open spec fn trim_start_all(s: Seq<char>, pat: Seq<char>) -> Seq<char>
    decreases s.len(),
{
    if pat.len() > 0 && pat.is_prefix_of(s) {
        trim_start_all(s.skip(pat.len() as int), pat)
    } else {
        s
    }
}

/// Whether a URL is a web link.
pub open spec fn is_web_url(url: Seq<char>) -> bool {
    "http://"@.is_prefix_of(url) || "https://"@.is_prefix_of(url)
}

/// Whether a URL mentions a Markdown file.
pub open spec fn mentions_markdown(url: Seq<char>) -> bool {
    occurs_in(url, ".md"@) || occurs_in(url, ".markdown"@)
}

/// The path part of a local link: the `asset://localhost` and `file://`
/// prefixes removed, in that order.
pub open spec fn local_link_path(url: Seq<char>) -> Seq<char> {
    trim_start_all(trim_start_all(url, "asset://localhost"@), "file://"@)
}

/// The characters of a string.
fn chars_of(s: &str) -> (r: Vec<char>)
    ensures
        r@ == s@,
{
    let n = s.unicode_len();
    let mut r: Vec<char> = Vec::new();
    let mut i: usize = 0;
    while i < n
        invariant
            n == s@.len(),
            i <= n,
            r@ == s@.subrange(0, i as int),
        decreases n - i,
    {
        r.push(s.get_char(i));
        i = i + 1;
        assert(r@ =~= s@.subrange(0, i as int));
    }
    assert(r@ =~= s@);
    r
}

/// Whether `pat` occurs in `s` at position `at`.
fn occurs_at(s: &Vec<char>, pat: &Vec<char>, at: usize) -> (r: bool)
    requires
        at <= s@.len(),
    ensures
        r == (at + pat@.len() <= s@.len() && s@.subrange(at as int, at + pat@.len()) == pat@),
{
    if pat.len() > s.len() - at {
        return false;
    }
    let mut j: usize = 0;
    while j < pat.len()
        invariant
            at + pat@.len() <= s@.len(),
            s@.len() == s.len(),
            j <= pat@.len(),
            forall|k: int| 0 <= k < j ==> s@[at + k] == pat@[k],
        decreases pat@.len() - j,
    {
        if s[at + j] != pat[j] {
            assert(s@.subrange(at as int, at + pat@.len())[j as int] != pat@[j as int]);
            return false;
        }
        j = j + 1;
    }
    assert(s@.subrange(at as int, at + pat@.len()) =~= pat@);
    true
}

/// Whether `pat` occurs anywhere in `s`.
fn occurs(s: &Vec<char>, pat: &Vec<char>) -> (r: bool)
    ensures
        r == occurs_in(s@, pat@),
{
    let mut at: usize = 0;
    loop
        invariant
            at <= s@.len(),
            forall|k: int|
                0 <= k < at ==> !(k + pat@.len() <= s@.len() && #[trigger] s@.subrange(
                    k,
                    k + pat@.len(),
                ) == pat@),
        decreases s@.len() - at,
    {
        if occurs_at(s, pat, at) {
            return true;
        }
        if at >= s.len() {
            assert forall|k: int| 0 <= k && k + pat@.len() <= s@.len() implies #[trigger] s@.subrange(
                k,
                k + pat@.len(),
            ) != pat@ by {
                if k > at {
                    assert(false);
                }
            }
            return false;
        }
        at = at + 1;
    }
}

/// The position after removing `pat` from `s[from..]` for as long as it is there.
fn trim_start_from(s: &Vec<char>, pat: &Vec<char>, from: usize) -> (end: usize)
    requires
        from <= s@.len(),
        pat@.len() > 0,
    ensures
        from <= end <= s@.len(),
        s@.skip(end as int) == trim_start_all(s@.skip(from as int), pat@),
{
    let mut i = from;
    while occurs_at(s, pat, i)
        invariant
            from <= i <= s@.len(),
            s@.len() == s.len(),
            pat@.len() > 0,
            trim_start_all(s@.skip(i as int), pat@) == trim_start_all(s@.skip(from as int), pat@),
        decreases s@.len() - i,
    {
        assert(pat@.is_prefix_of(s@.skip(i as int))) by {
            assert(s@.skip(i as int).subrange(0, pat@.len() as int) =~= s@.subrange(
                i as int,
                i + pat@.len(),
            ));
        }
        assert(s@.skip(i as int).skip(pat@.len() as int) =~= s@.skip(i + pat@.len()));
        i = i + pat.len();
    }
    assert(!pat@.is_prefix_of(s@.skip(i as int))) by {
        if pat@.is_prefix_of(s@.skip(i as int)) {
            assert(s@.skip(i as int).subrange(0, pat@.len() as int) =~= s@.subrange(
                i as int,
                i + pat@.len(),
            ));
        }
    }
    i
}

/// Decides what happens to a navigation request.
pub fn classify_navigation(url: &str) -> (d: NavigationDecision)
    ensures
        is_web_url(url@) ==> d is OpenExternal,
        !is_web_url(url@) && mentions_markdown(url@) ==> (d matches NavigationDecision::OpenMarkdown(
            p,
        ) && p@ == lossy_utf8(percent_decoded(encode_utf8(local_link_path(url@))))),
        !is_web_url(url@) && !mentions_markdown(url@) ==> d is Allow,
{
    let u = chars_of(url);
    assert(u@.skip(0) =~= u@);
    let http = chars_of("http://");
    let https = chars_of("https://");
    if occurs_at(&u, &http, 0) || occurs_at(&u, &https, 0) {
        return NavigationDecision::OpenExternal;
    }
    let md = chars_of(".md");
    let markdown = chars_of(".markdown");
    if occurs(&u, &md) || occurs(&u, &markdown) {
        let asset = chars_of("asset://localhost");
        let file = chars_of("file://");
        proof {
            reveal_strlit("asset://localhost");
            reveal_strlit("file://");
        }
        let after_asset = trim_start_from(&u, &asset, 0);
        let after_file = trim_start_from(&u, &file, after_asset);
        let path = url.substring_char(after_file, u.len());
        assert(path@ == local_link_path(url@)) by {
            assert(u@.subrange(after_file as int, u@.len() as int) =~= u@.skip(after_file as int));
        }
        return NavigationDecision::OpenMarkdown(percent_decode(path));
    }
    NavigationDecision::Allow
}

/// `.md` as characters.
pub open spec fn dot_md() -> Seq<char> {
    seq!['.', 'm', 'd']
}

/// `.markdown` as characters.
pub open spec fn dot_markdown() -> Seq<char> {
    seq!['.', 'm', 'a', 'r', 'k', 'd', 'o', 'w', 'n']
}

/// Law: a URL counts as a Markdown link exactly when `.md` or `.markdown`
/// occurs anywhere in it (before a `#fragment` or `?query` too), so
/// `classify_navigation` gives `OpenMarkdown` for every such URL that is no
/// web link, and `Allow` for every other URL that is no web link.
pub proof fn lemma_markdown_mention_anywhere(u: Seq<char>)
    ensures
        mentions_markdown(u) <==> (exists|k: int|
            0 <= k && k + 3 <= u.len() && #[trigger] u.subrange(k, k + 3) == dot_md()) || (exists|k: int|
            0 <= k && k + 9 <= u.len() && #[trigger] u.subrange(k, k + 9) == dot_markdown()),
{
    reveal_strlit(".md");
    reveal_strlit(".markdown");
    assert(".md"@ =~= dot_md());
    assert(".markdown"@ =~= dot_markdown());
    if occurs_in(u, ".md"@) {
        let k = choose|k: int| 0 <= k && k + ".md"@.len() <= u.len() && #[trigger] u.subrange(k, k + ".md"@.len()) == ".md"@;
        assert(u.subrange(k, k + 3) == dot_md());
    }
    if occurs_in(u, ".markdown"@) {
        let k = choose|k: int|
            0 <= k && k + ".markdown"@.len() <= u.len() && #[trigger] u.subrange(k, k + ".markdown"@.len()) == ".markdown"@;
        assert(u.subrange(k, k + 9) == dot_markdown());
    }
    if exists|k: int| 0 <= k && k + 3 <= u.len() && #[trigger] u.subrange(k, k + 3) == dot_md() {
        let k = choose|k: int| 0 <= k && k + 3 <= u.len() && #[trigger] u.subrange(k, k + 3) == dot_md();
        assert(u.subrange(k, k + ".md"@.len()) == ".md"@);
    }
    if exists|k: int| 0 <= k && k + 9 <= u.len() && #[trigger] u.subrange(k, k + 9) == dot_markdown() {
        let k = choose|k: int| 0 <= k && k + 9 <= u.len() && #[trigger] u.subrange(k, k + 9) == dot_markdown();
        assert(u.subrange(k, k + ".markdown"@.len()) == ".markdown"@);
    }
}

/// `http://` as characters.
pub open spec fn http_scheme() -> Seq<char> {
    seq!['h', 't', 't', 'p', ':', '/', '/']
}

/// `https://` as characters.
pub open spec fn https_scheme() -> Seq<char> {
    seq!['h', 't', 't', 'p', 's', ':', '/', '/']
}

/// Law: a URL is a web link exactly when it begins with `http://` or
/// `https://`.
pub proof fn lemma_web_url(u: Seq<char>)
    ensures
        is_web_url(u) <==> (u.len() >= 7 && u.subrange(0, 7) == http_scheme()) || (u.len() >= 8 && u.subrange(0, 8)
            == https_scheme()),
{
    reveal_strlit("http://");
    reveal_strlit("https://");
    assert("http://"@ =~= http_scheme());
    assert("https://"@ =~= https_scheme());
}

/// `asset://localhost` as characters.
pub open spec fn asset_origin() -> Seq<char> {
    seq!['a', 's', 's', 'e', 't', ':', '/', '/', 'l', 'o', 'c', 'a', 'l', 'h', 'o', 's', 't']
}

/// `file://` as characters.
pub open spec fn file_scheme() -> Seq<char> {
    seq!['f', 'i', 'l', 'e', ':', '/', '/']
}

/// Law: the path of a local link is what follows `asset://localhost`,
/// `file://`, or both in that order; a path that starts with neither is
/// taken as it is.
pub proof fn lemma_local_link_path(p: Seq<char>)
    requires
        !asset_origin().is_prefix_of(p),
        !file_scheme().is_prefix_of(p),
    ensures
        local_link_path(p) == p,
        local_link_path(asset_origin() + p) == p,
        local_link_path(file_scheme() + p) == p,
        local_link_path(asset_origin() + file_scheme() + p) == p,
{
    reveal_strlit("asset://localhost");
    reveal_strlit("file://");
    let a = asset_origin();
    let f = file_scheme();
    assert("asset://localhost"@ =~= a);
    assert("file://"@ =~= f);
    assert(a.is_prefix_of(a + p)) by {
        assert((a + p).subrange(0, a.len() as int) =~= a);
    }
    assert((a + p).skip(a.len() as int) =~= p);
    assert(f.is_prefix_of(f + p)) by {
        assert((f + p).subrange(0, f.len() as int) =~= f);
    }
    assert((f + p).skip(f.len() as int) =~= p);
    assert(!a.is_prefix_of(f + p)) by {
        assert((f + p)[0] == 'f');
    }
    let afp = a + f + p;
    assert(a.is_prefix_of(afp)) by {
        assert(afp.subrange(0, a.len() as int) =~= a);
    }
    assert(afp.skip(a.len() as int) =~= f + p);
    assert(trim_start_all(p, a) == p);
    assert(trim_start_all(a + p, a) == trim_start_all(p, a));
    assert(trim_start_all(f + p, a) == f + p);
    assert(trim_start_all(f + p, f) == trim_start_all(p, f));
    assert(trim_start_all(afp, a) == trim_start_all(f + p, a));
}

} // verus!
