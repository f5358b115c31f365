use md_viewer::ipc::{classify_navigation, ipc_to_event, AppEvent, IpcMessage, NavigationDecision};
use md_viewer::mime::{get_image_mime, image_mime_of_lowercase};
use md_viewer::path::{
    asset_content_type, components, extension, has_file_name, is_markdown_lowercase_ext,
    is_safe_asset_path, parent, parent_or_root, resolve_safe_markdown_target, starts_with,
    starts_with_dot, PathComponent,
};
use md_viewer::percent::{percent_decode, percent_decode_bytes};
use md_viewer::render::{generate_html_shell, render_markdown};
use md_viewer::script::{scroll_script, update_content_call, update_content_script};
use md_viewer::text::str_eq;

fn safe(target: &str, base: &str) -> Option<Vec<u8>> {
    is_safe_asset_path(target.as_bytes(), base.as_bytes())
}

fn md_target(target: &str, base: &str) -> Option<Vec<u8>> {
    resolve_safe_markdown_target(target.as_bytes(), base.as_bytes())
}

#[test]
fn percent_plain_text_is_unchanged() {
    assert_eq!(percent_decode("docs/readme.md"), "docs/readme.md");
    assert_eq!(percent_decode(""), "");
    assert_eq!(percent_decode("中文/图片.png"), "中文/图片.png");
}

#[test]
fn percent_decodes_space_and_cjk() {
    assert_eq!(percent_decode("/home/u/my%20notes/a%20b.png"), "/home/u/my notes/a b.png");
    assert_eq!(percent_decode("/%E4%B8%AD%E6%96%87.png"), "/中文.png");
    assert_eq!(percent_decode("%e4%b8%ad"), "中");
    assert_eq!(percent_decode("%41%42c"), "ABc");
}

#[test]
fn percent_without_hex_digits_is_kept() {
    assert_eq!(percent_decode("%zz1"), "%zz1");
    assert_eq!(percent_decode("a%g0b"), "a%g0b");
    assert_eq!(percent_decode("100%"), "100%");
    assert_eq!(percent_decode("%4"), "%4");
}

#[test]
fn percent_short_escape_at_end_is_kept() {
    assert_eq!(percent_decode("ab%2"), "ab%2");
    assert_eq!(percent_decode("ab%"), "ab%");
    assert_eq!(percent_decode("a%4"), "a%4");
}

#[test]
fn percent_sign_is_no_hex_digit() {
    assert_eq!(percent_decode("%+5"), "%+5");
    assert_eq!(percent_decode("%+"), "%+");
    assert_eq!(percent_decode("%-5x"), "%-5x");
}

#[test]
fn percent_before_non_ascii_is_kept() {
    assert_eq!(percent_decode("%a\u{e9}"), "%a\u{e9}");
    assert_eq!(percent_decode("%\u{e9}x"), "%\u{e9}x");
    assert_eq!(percent_decode("%中"), "%中");
}

#[test]
fn percent_escaped_percent_is_decoded_once() {
    assert_eq!(percent_decode("%25"), "%");
    assert_eq!(percent_decode("a%2541"), "a%41");
    assert_eq!(percent_decode("%%41"), "%A");
}

#[test]
fn percent_partial_mixed_case_roundtrip() {
    let text = "my notes/中文 100%.png";
    let mut enc = String::new();
    for (i, b) in text.bytes().enumerate() {
        if b == b'%' || (i % 3 == 0) || b >= 0x80 {
            if i % 2 == 0 {
                enc.push_str(&format!("%{:02X}", b));
            } else {
                enc.push_str(&format!("%{:02x}", b));
            }
        } else {
            enc.push(b as char);
        }
    }
    assert_eq!(percent_decode(&enc), text);
}

#[test]
fn percent_bytes_roundtrip_every_byte() {
    let mut encoded: Vec<u8> = Vec::new();
    let mut lower: Vec<u8> = Vec::new();
    let mut expected: Vec<u8> = Vec::new();
    for b in 0u8..=255 {
        encoded.extend_from_slice(format!("%{:02X}", b).as_bytes());
        lower.extend_from_slice(format!("%{:02x}", b).as_bytes());
        expected.push(b);
    }
    assert_eq!(percent_decode_bytes(&encoded), expected);
    assert_eq!(percent_decode_bytes(&lower), expected);
}

#[test]
fn percent_decoded_bytes_invalid_utf8_is_replaced() {
    assert_eq!(percent_decode("%FFa"), "\u{fffd}a");
}

#[test]
fn mime_lookup_is_case_insensitive() {
    assert_eq!(get_image_mime("png"), Some("image/png"));
    assert_eq!(get_image_mime("PNG"), Some("image/png"));
    assert_eq!(get_image_mime("Jpg"), Some("image/jpeg"));
    assert_eq!(get_image_mime("jpeg"), Some("image/jpeg"));
    assert_eq!(get_image_mime("gif"), Some("image/gif"));
    assert_eq!(get_image_mime("webp"), Some("image/webp"));
    assert_eq!(get_image_mime("SVG"), Some("image/svg+xml"));
    assert_eq!(get_image_mime("bmp"), Some("image/bmp"));
    assert_eq!(get_image_mime("ico"), Some("image/x-icon"));
    assert_eq!(get_image_mime("avif"), Some("image/avif"));
    assert_eq!(get_image_mime("txt"), None);
    assert_eq!(get_image_mime(""), None);
}

#[test]
fn mime_of_lowercase_is_exact() {
    assert_eq!(image_mime_of_lowercase("png"), Some("image/png"));
    assert_eq!(image_mime_of_lowercase("PNG"), None);
}

#[test]
fn str_eq_compares_text() {
    assert!(str_eq("md", "md"));
    assert!(!str_eq("md", "mD"));
    assert!(!str_eq("md", "m"));
}

fn names(path: &str) -> Vec<String> {
    components(path.as_bytes())
        .iter()
        .map(|c| match c {
            PathComponent::RootDir => "/".to_string(),
            PathComponent::CurDir => ".".to_string(),
            PathComponent::ParentDir => "..".to_string(),
            PathComponent::Normal(n) => String::from_utf8(n.to_vec()).unwrap(),
        })
        .collect()
}

#[test]
fn components_follow_std_path_rules() {
    assert_eq!(names("/a/./b//c/../d/"), vec!["/", "a", "b", "c", "..", "d"]);
    assert_eq!(names("./x"), vec![".", "x"]);
    assert_eq!(names("."), vec!["."]);
    assert_eq!(names("a/."), vec!["a"]);
    assert_eq!(names(""), Vec::<String>::new());
    assert_eq!(names("//"), vec!["/"]);
}

#[test]
fn components_match_std_path() {
    for p in ["/a/./b//c/../d/", "./x", ".", "a/.", "", "//", "x/./../y", "/.hidden/z.png"] {
        let ours = names(p);
        let theirs: Vec<String> = std::path::Path::new(p)
            .components()
            .map(|c| c.as_os_str().to_string_lossy().into_owned())
            .collect();
        assert_eq!(ours, theirs, "path {:?}", p);
    }
}

#[test]
fn starts_with_is_by_component() {
    assert!(starts_with(b"/etc/passwd", b"/etc"));
    assert!(!starts_with(b"/etcetera/x", b"/etc"));
    assert!(starts_with(b"/home/u/docs/a.png", b"/home/u/docs/"));
    assert!(starts_with(b"/home/u", b"/home/u"));
    assert!(!starts_with(b"/home", b"/home/u"));
}

#[test]
fn extension_follows_std_path_rules() {
    assert_eq!(extension(b"/a/b.tar.gz"), Some(&b"gz"[..]));
    assert_eq!(extension(b"/a/.bashrc"), None);
    assert_eq!(extension(b"/a/b."), Some(&b""[..]));
    assert_eq!(extension(b"/a/b"), None);
    assert_eq!(extension(b"/"), None);
    assert_eq!(extension(b"/a/.x.png"), Some(&b"png"[..]));
    assert_eq!(extension(b"/a/b.png/.."), None);
}

#[test]
fn asset_inside_base_is_served() {
    assert_eq!(safe("/home/u/docs/img/a.png", "/home/u/docs"), Some(b"/home/u/docs/img/a.png".to_vec()));
    assert_eq!(safe("/home/u/docs/A.PNG", "/home/u/docs"), Some(b"/home/u/docs/A.PNG".to_vec()));
}

#[test]
fn asset_outside_base_is_refused() {
    assert_eq!(safe("/home/u/other/a.png", "/home/u/docs"), None);
    assert_eq!(safe("/home/u/docs2/a.png", "/home/u/docs"), None);
}

#[test]
fn asset_hidden_component_is_refused() {
    assert_eq!(safe("/home/u/docs/.git/a.png", "/home/u/docs"), None);
    assert_eq!(safe("/home/u/.docs/a.png", "/home/u/.docs"), None);
    assert_eq!(safe("/home/u/docs/.png", "/home/u/docs"), None);
}

#[test]
fn asset_extension_must_be_image() {
    assert_eq!(safe("/home/u/docs/a.txt", "/home/u/docs"), None);
    assert_eq!(safe("/home/u/docs/a", "/home/u/docs"), None);
    assert_eq!(safe("/home/u/docs/notes.md", "/home/u/docs"), None);
}

#[test]
fn asset_system_directories_are_refused() {
    assert_eq!(safe("/etc/logo.png", "/etc"), None);
    assert_eq!(safe("/proc/1/a.png", "/"), None);
    assert_eq!(safe("/sys/a.png", "/"), None);
    assert_eq!(safe("/dev/a.png", "/"), None);
    assert_eq!(safe("/run/a.png", "/"), None);
    assert_eq!(safe("/var/www/a.png", "/var/www"), None);
    assert_eq!(safe("/root/a.png", "/root"), None);
    assert_eq!(safe("/etcx/a.png", "/etcx"), Some(b"/etcx/a.png".to_vec()));
}

#[test]
fn markdown_target_rules() {
    assert_eq!(md_target("/d/notes.md", "/d"), Some(b"/d/notes.md".to_vec()));
    assert_eq!(md_target("/d/sub/Notes.MARKDOWN", "/d"), Some(b"/d/sub/Notes.MARKDOWN".to_vec()));
    assert_eq!(md_target("/d/notes.txt", "/d"), None);
    assert_eq!(md_target("/x/notes.md", "/d"), None);
    assert_eq!(md_target("/d/.private/notes.md", "/d"), None);
    assert_eq!(md_target("/d/notes", "/d"), None);
    assert_eq!(md_target("/etc/notes.md", "/etc"), Some(b"/etc/notes.md".to_vec()));
}

#[test]
fn markdown_lowercase_ext_is_exact() {
    assert!(is_markdown_lowercase_ext("md"));
    assert!(is_markdown_lowercase_ext("markdown"));
    assert!(!is_markdown_lowercase_ext("MD"));
    assert!(!is_markdown_lowercase_ext("mdx"));
}

#[test]
fn dot_prefix_check() {
    assert!(starts_with_dot(".git"));
    assert!(!starts_with_dot("git"));
    assert!(!starts_with_dot(""));
}

#[test]
fn content_type_falls_back_to_octet_stream() {
    assert_eq!(asset_content_type(b"/a/b.svg"), "image/svg+xml");
    assert_eq!(asset_content_type(b"/a/b.JPEG"), "image/jpeg");
    assert_eq!(asset_content_type(b"/a/b"), "application/octet-stream");
    assert_eq!(asset_content_type(b"/a/b.txt"), "application/octet-stream");
}

#[test]
fn navigation_web_links_leave_the_preview() {
    assert!(matches!(classify_navigation("https://example.org/a.md"), NavigationDecision::OpenExternal));
    assert!(matches!(classify_navigation("http://example.org/"), NavigationDecision::OpenExternal));
}

#[test]
fn navigation_local_markdown_is_decoded() {
    match classify_navigation("asset://localhost/home/u/my%20notes.md") {
        NavigationDecision::OpenMarkdown(p) => assert_eq!(p, "/home/u/my notes.md"),
        _ => panic!("expected a Markdown link"),
    }
    match classify_navigation("file:///tmp/%E4%B8%AD.markdown") {
        NavigationDecision::OpenMarkdown(p) => assert_eq!(p, "/tmp/中.markdown"),
        _ => panic!("expected a Markdown link"),
    }
    match classify_navigation("asset://localhostasset://localhost/x.md") {
        NavigationDecision::OpenMarkdown(p) => assert_eq!(p, "/x.md"),
        _ => panic!("expected a Markdown link"),
    }
}

#[test]
fn navigation_other_requests_load() {
    assert!(matches!(classify_navigation("asset://localhost/img.png"), NavigationDecision::Allow));
    assert!(matches!(classify_navigation("about:blank"), NavigationDecision::Allow));
    assert!(matches!(classify_navigation("#section"), NavigationDecision::Allow));
}

#[test]
fn html_shell_with_base_dir() {
    let page = generate_html_shell("<p>x</p>", Some(b"/docs"), "CSS");
    assert!(page.starts_with("<!DOCTYPE html>\n<html>\n<head>\n  <meta charset=\"utf-8\">"));
    assert!(page.contains("script-src 'none'"));
    assert!(page.contains("  <base href=\"asset://localhost/docs/\">\n  <style>\n    CSS\n    body {"));
    assert!(page.ends_with("<div id=\"content\"><p>x</p></div>\n</body>\n</html>"));
    let page2 = generate_html_shell("", Some(b"/docs/"), "");
    assert!(page2.contains("<base href=\"asset://localhost/docs/\">"));
    let page3 = generate_html_shell("", Some(b"/d\xff"), "");
    assert!(page3.contains("<base href=\"asset://localhost/d\u{fffd}/\">"));
}

#[test]
fn html_shell_matches_template() {
    let css = "a{color:red}";
    let html = "<h1>T</h1>";
    let expected = format!(
        r#"<!DOCTYPE html>
<html>
<head>
  <meta charset="utf-8">
  <!-- 零信任 CSP 策略：禁止一切外部脚本与 XSS 执行 -->
  <meta http-equiv="Content-Security-Policy" content="default-src 'none'; script-src 'none'; style-src 'unsafe-inline'; img-src asset: https: http: data:;">
  {base_tag}
  <style>
    {css}
    body {{
      box-sizing: border-box;
      min-width: 200px;
      max-width: 100%;
      margin: 0 auto;
      padding: 30px 45px;
      background-color: #0d1117;
    }}
    html {{
      scroll-behavior: smooth;
    }}
    pre, table {{
      overflow-x: auto;
    }}
  </style>
</head>
<body class="markdown-body">
  <div id="content">{html}</div>
</body>
</html>"#,
        base_tag = ""
    );
    assert_eq!(generate_html_shell(html, None, css), expected);
}

#[test]
fn scroll_script_writes_decimal() {
    assert_eq!(scroll_script(0), "window.scrollToLine(0);");
    assert_eq!(scroll_script(7), "window.scrollToLine(7);");
    assert_eq!(scroll_script(1204), "window.scrollToLine(1204);");
    assert_eq!(scroll_script(usize::MAX), format!("window.scrollToLine({});", usize::MAX));
}

#[test]
fn update_script_uses_json_literals() {
    assert_eq!(
        update_content_script("<p>\"hi\"</p>\n", b"/d"),
        "window.updateContent(\"<p>\\\"hi\\\"</p>\\n\", \"/d\");"
    );
    assert_eq!(
        update_content_script("a\\b\u{1}\u{8}\t\u{c}\r\u{1f}é/", b"/d\xff"),
        format!(
            "window.updateContent({}, {});",
            serde_json::to_string("a\\b\u{1}\u{8}\t\u{c}\r\u{1f}é/").unwrap(),
            serde_json::to_string("/d\u{fffd}").unwrap()
        )
    );
    assert_eq!(
        update_content_script("\u{1}\u{1f}", b""),
        "window.updateContent(\"\\u0001\\u001f\", \"\");"
    );
    assert_eq!(update_content_call("1", "2"), "window.updateContent(1, 2);");
}

#[test]
fn render_sets_sourcepos_tables_and_tasks() {
    assert_eq!(render_markdown("# Title\n"), "<h1 data-sourcepos=\"1:1-1:7\">Title</h1>\n");
    let table = render_markdown("| a | b |\n|---|---|\n| c | d |\n");
    assert!(table.contains("<table"));
    let tasks = render_markdown("- [x] done\n");
    assert!(tasks.contains("type=\"checkbox\""));
}

#[test]
fn ipc_content_renders_and_keeps_dir() {
    let ev = ipc_to_event(
        IpcMessage::Content { markdown: "*a*".to_string(), base_dir: Some("/notes".to_string()) },
        b"/fallback".to_vec(),
    );
    match ev {
        AppEvent::UpdateHtml { html, base_dir } => {
            assert_eq!(html, render_markdown("*a*"));
            assert!(html.contains("<em"));
            assert_eq!(base_dir, b"/notes".to_vec());
        }
        _ => panic!("expected an update"),
    }
}

#[test]
fn ipc_content_without_dir_uses_fallback() {
    match ipc_to_event(IpcMessage::Content { markdown: String::new(), base_dir: None }, b"/cwd\xff".to_vec()) {
        AppEvent::UpdateHtml { base_dir, .. } => assert_eq!(base_dir, b"/cwd\xff".to_vec()),
        _ => panic!("expected an update"),
    }
}

#[test]
fn ipc_scroll_becomes_scroll_event() {
    assert!(matches!(
        ipc_to_event(IpcMessage::Scroll { line: 42 }, Vec::new()),
        AppEvent::ScrollTo(42)
    ));
}

#[test]
fn parent_matches_std_path() {
    for p in [
        "/", "", ".", "./", "a", "/a", "/a/b", "/a/b/", "a/b//", "a/./b", "a/b/.", "./a", "../a", "a/..",
        "//a//b//", "/a/./.", "x/./../y", "/home/u/notes.md",
    ] {
        let ours = parent(p.as_bytes());
        let theirs = std::path::Path::new(p).parent().map(|q| q.as_os_str().as_encoded_bytes());
        assert_eq!(ours, theirs, "path {:?}", p);
    }
}

#[test]
fn parent_or_root_falls_back_to_root() {
    assert_eq!(parent_or_root(b"/home/u/notes.md"), b"/home/u".to_vec());
    assert_eq!(parent_or_root(b"/"), b"/".to_vec());
    assert_eq!(parent_or_root(b"/notes.md"), b"/".to_vec());
}

#[test]
fn file_name_filter() {
    assert!(has_file_name(b"/home/u/notes.md", b"notes.md"));
    assert!(has_file_name(b"/home/u/notes.md/", b"notes.md"));
    assert!(!has_file_name(b"/home/u/notes.md.swp", b"notes.md"));
    assert!(!has_file_name(b"/home/u/..", b".."));
    assert!(!has_file_name(b"/", b""));
}

#[test]
fn hidden_check_reads_first_byte() {
    assert_eq!(is_safe_asset_path(b"/d/\xc3\xa9.png", b"/d"), Some(b"/d/\xc3\xa9.png".to_vec()));
    assert_eq!(is_safe_asset_path(b"/d/\xff.png", b"/d"), Some(b"/d/\xff.png".to_vec()));
    assert_eq!(is_safe_asset_path(b"/d/.\xff.png", b"/d"), None);
    assert_eq!(is_safe_asset_path(b"/d/x.PN\xff", b"/d"), None);
}
