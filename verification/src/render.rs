//! Markdown rendering (through comrak), the HTML page the viewer loads, and
//! the scripts that update it.

use vstd::prelude::*;
use crate::text::{lossy_utf8, utf8_lossy};

verus! {

/// The rendering options the viewer sets on comrak, as plain values.
pub struct RenderOptions {
    /// Emit `data-sourcepos` attributes (used for scroll sync).
    pub sourcepos: bool,
    /// The GFM table extension.
    pub table: bool,
    /// The GFM task-list extension.
    pub tasklist: bool,
}

/// The HTML that `comrak::markdown_to_html` produces for a text under
/// default options with these three settings; it depends on them alone.
pub uninterp spec fn comrak_html(markdown: Seq<char>, sourcepos: bool, table: bool, tasklist: bool) -> Seq<char>;

/// Calls `comrak::markdown_to_html` with default options plus the three
/// settings. Trusted: the output is named; nothing of CommonMark is stated.
#[verifier::external_body]
fn markdown_to_html(markdown: &str, options: &RenderOptions) -> (html: String)
    ensures
        html@ == comrak_html(markdown@, options.sourcepos, options.table, options.tasklist),
{
    let mut o = comrak::Options::default();
    o.render.sourcepos = options.sourcepos;
    o.extension.table = options.table;
    o.extension.tasklist = options.tasklist;
    comrak::markdown_to_html(markdown, &o)
}

/// Renders Markdown to HTML with source positions, tables and task lists.
pub fn render_markdown(content: &str) -> (html: String)
    ensures
        html@ == comrak_html(content@, true, true, true),
{
    let options = RenderOptions { sourcepos: true, table: true, tasklist: true };
    markdown_to_html(content, &options)
}

/// The page up to the `<base>` tag, with the content security policy that
/// forbids every script.
pub const SHELL_HEAD: &'static str = "<!DOCTYPE html>\n<html>\n<head>\n  <meta charset=\"utf-8\">\n  <!-- 零信任 CSP 策略：禁止一切外部脚本与 XSS 执行 -->\n  <meta http-equiv=\"Content-Security-Policy\" content=\"default-src 'none'; script-src 'none'; style-src 'unsafe-inline'; img-src asset: https: http: data:;\">\n  ";

/// Between the `<base>` tag and the stylesheet.
pub const SHELL_STYLE_OPEN: &'static str = "\n  <style>\n    ";

/// Between the stylesheet and the initial HTML.
pub const SHELL_BODY_OPEN: &'static str = "\n    body {\n      box-sizing: border-box;\n      min-width: 200px;\n      max-width: 100%;\n      margin: 0 auto;\n      padding: 30px 45px;\n      background-color: #0d1117;\n    }\n    html {\n      scroll-behavior: smooth;\n    }\n    pre, table {\n      overflow-x: auto;\n    }\n  </style>\n</head>\n<body class=\"markdown-body\">\n  <div id=\"content\">";

/// After the initial HTML.
pub const SHELL_TAIL: &'static str = "</div>\n</body>\n</html>";

/// A directory with a `/` at its end, added when missing.
pub open spec fn with_trailing_slash(dir: Seq<char>) -> Seq<char> {
    if dir.len() > 0 && dir.last() == '/' {
        dir
    } else {
        dir + "/"@
    }
}

/// The `<base>` tag for an initial base directory, or nothing.
pub open spec fn base_tag(dir: Option<Seq<char>>) -> Seq<char> {
    match dir {
        Some(d) => "<base href=\"asset://localhost"@ + with_trailing_slash(d) + "\">"@,
        None => Seq::<char>::empty(),
    }
}

/// The whole page: head with the security policy, optional `<base>` tag,
/// stylesheet, fixed layout rules, and the initial HTML in `#content`.
pub open spec fn html_shell(initial_html: Seq<char>, dir: Option<Seq<char>>, stylesheet: Seq<char>) -> Seq<char> {
    SHELL_HEAD@ + base_tag(dir) + SHELL_STYLE_OPEN@ + stylesheet + SHELL_BODY_OPEN@ + initial_html
        + SHELL_TAIL@
}

/// Builds the page the web view starts from. The stylesheet is the bundled
/// GitHub dark theme; the base directory, when given, is the directory that
/// relative image paths resolve against, written as text with malformed
/// UTF-8 replaced.
pub fn generate_html_shell(initial_html: &str, initial_base_dir: Option<&[u8]>, stylesheet: &str) -> (page: String)
    ensures
        page@ == html_shell(
            initial_html@,
            match initial_base_dir {
                Some(d) => Some(lossy_utf8(d@)),
                None => None,
            },
            stylesheet@,
        ),
{
    let mut page = String::new();
    page.append(SHELL_HEAD);
    match initial_base_dir {
        Some(dir_bytes) => {
            let dir_text = utf8_lossy(dir_bytes);
            let dir = dir_text.as_str();
            page.append("<base href=\"asset://localhost");
            page.append(dir);
            let n = dir.unicode_len();
            if !(n > 0 && dir.get_char(n - 1) == '/') {
                page.append("/");
            }
            page.append("\">");
        },
        None => {},
    }
    page.append(SHELL_STYLE_OPEN);
    page.append(stylesheet);
    page.append(SHELL_BODY_OPEN);
    page.append(initial_html);
    page.append(SHELL_TAIL);
    page
}

/// Law: every page the viewer starts from opens with the head that carries
/// the content security policy forbidding all scripts, and ends with the
/// initial HTML inside the `#content` element.
pub proof fn lemma_shell_policy_and_content(initial_html: Seq<char>, dir: Option<Seq<char>>, stylesheet: Seq<char>)
    ensures
        SHELL_HEAD@.is_prefix_of(html_shell(initial_html, dir, stylesheet)),
        (SHELL_BODY_OPEN@ + initial_html + SHELL_TAIL@).is_suffix_of(
            html_shell(initial_html, dir, stylesheet),
        ),
{
    let page = html_shell(initial_html, dir, stylesheet);
    let front = SHELL_HEAD@ + base_tag(dir) + SHELL_STYLE_OPEN@ + stylesheet;
    let back = SHELL_BODY_OPEN@ + initial_html + SHELL_TAIL@;
    assert(page =~= front + back);
    assert(page.subrange(0, SHELL_HEAD@.len() as int) =~= SHELL_HEAD@);
    assert(page.subrange(page.len() - back.len(), page.len() as int) =~= back);
}

/// Law: with a base directory `d`, the page holds, right after the head,
/// `<base href="asset://localhost` followed by `d` with exactly one `/`
/// ensured at its end, then `">`; without one, the style block follows the
/// head directly.
pub proof fn lemma_shell_base_tag(initial_html: Seq<char>, d: Option<Seq<char>>, stylesheet: Seq<char>)
    ensures
        ({
            let page = html_shell(initial_html, d, stylesheet);
            let h = SHELL_HEAD@.len() as int;
            let open = "<base href=\"asset://localhost"@;
            match d {
                Some(dir) => {
                    let slashed = if dir.len() > 0 && dir.last() == '/' {
                        dir
                    } else {
                        dir.push('/')
                    };
                    page.subrange(h, h + open.len() + slashed.len() + 2) == open + slashed + "\">"@
                },
                None => page.subrange(h, h + SHELL_STYLE_OPEN@.len()) == SHELL_STYLE_OPEN@,
            }
        }),
{
    reveal_strlit("\">");
    reveal_strlit("/");
    let page = html_shell(initial_html, d, stylesheet);
    let h = SHELL_HEAD@.len() as int;
    match d {
        Some(dir) => {
            let tag = base_tag(d);
            assert(page =~= SHELL_HEAD@ + tag + (SHELL_STYLE_OPEN@ + stylesheet + SHELL_BODY_OPEN@ + initial_html
                + SHELL_TAIL@));
            assert("/"@ =~= seq!['/']);
            if !(dir.len() > 0 && dir.last() == '/') {
                assert(dir + "/"@ =~= dir.push('/'));
            }
            assert(page.subrange(h, h + tag.len()) =~= tag);
        },
        None => {
            assert(page =~= SHELL_HEAD@ + SHELL_STYLE_OPEN@ + (stylesheet + SHELL_BODY_OPEN@ + initial_html
                + SHELL_TAIL@));
            assert(page.subrange(h, h + SHELL_STYLE_OPEN@.len()) =~= SHELL_STYLE_OPEN@);
        },
    }
}

} // verus!
