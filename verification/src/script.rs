//! The JavaScript calls the host evaluates in the web view: replacing the
//! content and scrolling to a source line.

use vstd::prelude::*;
use crate::text::{lossy_utf8, utf8_lossy};

verus! {

#[verifier::external_type_specification]
#[verifier::external_body]
pub struct ExJsonError(serde_json::Error);

/// The lowercase hexadecimal digit of a value below 16.
pub open spec fn lower_hex_char(d: u32) -> char {
    if d < 10 {
        (48 + d) as char
    } else {
        (87 + d) as char
    }
}

/// How serde_json writes one character inside a JSON string: `"` and `\`
/// are escaped with a backslash, the control characters U+0008, U+0009,
/// U+000A, U+000C and U+000D as `\b`, `\t`, `\n`, `\f` and `\r`, the other
/// controls below U+0020 as `\u00` and two lowercase hex digits; every other
/// character is written as it is.
pub open spec fn json_escape_char(c: char) -> Seq<char> {
    if c == '"' {
        seq!['\\', '"']
    } else if c == '\\' {
        seq!['\\', '\\']
    } else if c == '\u{8}' {
        seq!['\\', 'b']
    } else if c == '\t' {
        seq!['\\', 't']
    } else if c == '\n' {
        seq!['\\', 'n']
    } else if c == '\u{c}' {
        seq!['\\', 'f']
    } else if c == '\r' {
        seq!['\\', 'r']
    } else if (c as u32) < 0x20 {
        seq!['\\', 'u', '0', '0', lower_hex_char((c as u32) / 16), lower_hex_char((c as u32) % 16)]
    } else {
        seq![c]
    }
}

/// The escaped characters of a text.
pub open spec fn json_escaped(text: Seq<char>) -> Seq<char>
    decreases text.len(),
{
    if text.len() == 0 {
        seq![]
    } else {
        json_escape_char(text[0]) + json_escaped(text.drop_first())
    }
}

/// The JSON string literal of a text, as serde_json writes it.
pub open spec fn json_string_text(text: Seq<char>) -> Seq<char> {
    seq!['"'] + json_escaped(text) + seq!['"']
}

/// Calls `serde_json::to_string` on a string. Trusted, from the source of
/// serde_json 1.0.154 (`to_string`, `format_escaped_str`, the `ESCAPE`
/// table and `CompactFormatter`): a string serialises into a `Vec` without
/// fail, as a quoted literal escaped as `json_escape_char` states.
#[verifier::external_body]
fn json_string(text: &str) -> (r: Result<String, serde_json::Error>)
    ensures
        r is Ok,
        r matches Ok(j) ==> j@ == json_string_text(text@),
{
    serde_json::to_string(text)
}

/// The call that replaces the page content, given the two arguments
/// already written as JavaScript literals.
pub open spec fn update_content_call_text(js_html: Seq<char>, js_dir: Seq<char>) -> Seq<char> {
    "window.updateContent("@ + js_html + ", "@ + js_dir + ");"@
}

/// Writes `window.updateContent(<html>, <dir>);` from the two literals.
pub fn update_content_call(js_html: &str, js_dir: &str) -> (s: String)
    ensures
        s@ == update_content_call_text(js_html@, js_dir@),
        s@ == "window.updateContent("@ + js_html@ + ", "@ + js_dir@ + ");"@,
{
    let mut s = String::new();
    s.append("window.updateContent(");
    s.append(js_html);
    s.append(", ");
    s.append(js_dir);
    s.append(");");
    s
}

/// The script that shows new HTML with a new base directory; the directory
/// is written as text with malformed UTF-8 replaced.
pub fn update_content_script(html: &str, base_dir: &[u8]) -> (s: String)
    ensures
        s@ == update_content_call_text(json_string_text(html@), json_string_text(lossy_utf8(base_dir@))),
        s@ == "window.updateContent("@ + json_string_text(html@) + ", "@ + json_string_text(
            lossy_utf8(base_dir@),
        ) + ");"@,
{
    let dir = utf8_lossy(base_dir);
    let js_html = json_string(html);
    let js_dir = json_string(dir.as_str());
    match (js_html, js_dir) {
        (Ok(a), Ok(b)) => update_content_call(a.as_str(), b.as_str()),
        _ => String::new(),
    }
}

/// The character of a decimal digit.
pub open spec fn digit_char(d: nat) -> char {
    (48 + d) as char
}

/// The decimal numeral of a natural number, without leading zeros.
pub open spec fn decimal(n: nat) -> Seq<char>
    decreases n,
{
    if n < 10 {
        seq![digit_char(n)]
    } else {
        decimal(n / 10).push(digit_char(n % 10))
    }
}

fn digit_str(d: usize) -> (s: &'static str)
    requires
        d < 10,
    ensures
        s@ == seq![digit_char(d as nat)],
{
    proof {
        reveal_strlit("0");
        reveal_strlit("1");
        reveal_strlit("2");
        reveal_strlit("3");
        reveal_strlit("4");
        reveal_strlit("5");
        reveal_strlit("6");
        reveal_strlit("7");
        reveal_strlit("8");
        reveal_strlit("9");
    }
    if d == 0 {
        "0"
    } else if d == 1 {
        "1"
    } else if d == 2 {
        "2"
    } else if d == 3 {
        "3"
    } else if d == 4 {
        "4"
    } else if d == 5 {
        "5"
    } else if d == 6 {
        "6"
    } else if d == 7 {
        "7"
    } else if d == 8 {
        "8"
    } else {
        "9"
    }
}

/// Appends the decimal numeral of `n`.
pub fn push_decimal(out: &mut String, n: usize)
    ensures
        final(out)@ == old(out)@ + decimal(n as nat),
    decreases n,
{
    if n >= 10 {
        push_decimal(out, n / 10);
    }
    out.append(digit_str(n % 10));
    assert(final(out)@ =~= old(out)@ + decimal(n as nat)) by {
        if n >= 10 {
            assert(decimal(n as nat) == decimal((n / 10) as nat).push(digit_char((n % 10) as nat)));
        }
    }
}

/// The call that scrolls the preview to a source line.
pub open spec fn scroll_call_text(line: nat) -> Seq<char> {
    "window.scrollToLine("@ + decimal(line) + ");"@
}

/// Writes `window.scrollToLine(<line>);`.
pub fn scroll_script(line: usize) -> (s: String)
    ensures
        s@ == scroll_call_text(line as nat),
        s@ == "window.scrollToLine("@ + decimal(line as nat) + ");"@,
{
    let mut s = String::new();
    s.append("window.scrollToLine(");
    push_decimal(&mut s, line);
    s.append(");");
    s
}

/// Law: the JSON literal of any text, the empty text included, is quoted:
/// it begins and ends with `"` and holds at least those two characters.
pub proof fn lemma_json_literal_quoted(text: Seq<char>)
    ensures
        json_string_text(text).len() >= 2,
        json_string_text(text)[0] == '"',
        json_string_text(text).last() == '"',
        json_string_text(Seq::<char>::empty()) == seq!['"', '"'],
{
    assert(json_escaped(Seq::<char>::empty()) =~= Seq::<char>::empty());
    assert(json_string_text(Seq::<char>::empty()) =~= seq!['"', '"']);
}

/// Law: the numeral of a number reads back as the number.
pub proof fn lemma_decimal_value(n: nat)
    ensures
        decimal_value(decimal(n)) == n,
        decimal(n).len() > 0,
    decreases n,
{
    let d = (n % 10) as nat;
    assert((digit_char(d) as int) == 48 + d);
    let s = decimal(n);
    assert(s.len() > 0);
    assert(decimal_value(s) == (decimal_value(s.drop_last()) * 10 + ((s.last() as int - 48) as nat)) as nat);
    if n >= 10 {
        lemma_decimal_value(n / 10);
        assert(decimal(n).drop_last() =~= decimal(n / 10));
        assert(decimal(n).last() == digit_char(d));
        assert((n / 10) * 10 + d == n);
    } else {
        assert(decimal(n).drop_last() =~= Seq::<char>::empty());
        assert(decimal(n).last() == digit_char(n));
        assert(d == n);
    }
}

/// The number a string of decimal digits spells.
pub open spec fn decimal_value(s: Seq<char>) -> nat
    decreases s.len(),
{
    if s.len() == 0 {
        0
    } else {
        (decimal_value(s.drop_last()) * 10 + ((s.last() as int - 48) as nat)) as nat
    }
}

} // verus!
