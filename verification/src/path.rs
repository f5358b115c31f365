//! The sandbox rules for local files. Paths are byte strings, as on Unix,
//! and are split into components the way `std::path::Path` does on Unix:
//! a leading `/` is the root, a leading `.` segment is the current
//! directory, empty and `.` segments are skipped, `..` is the parent
//! directory and every other segment is a normal name. "Starts with" and
//! "extension" follow `Path::starts_with` and `Path::extension`.

use vstd::prelude::*;
use vstd::slice::slice_to_vec;
use vstd::string::StringSliceAdditionalSpecFns;
use crate::mime::{get_image_mime, image_mime};
use crate::text::{
    ascii_chars, ascii_lowercase, is_ascii_bytes, lemma_ascii_bytes_decode, lossy_utf8, str_eq,
    to_lowercase, unicode_lowercase, utf8_lossy,
};

verus! {

/// One component of a path, as a value.
pub enum ComponentView {
    RootDir,
    CurDir,
    ParentDir,
    Normal(Seq<u8>),
}

/// One component of a path, borrowing its name from the path.
pub enum PathComponent<'a> {
    RootDir,
    CurDir,
    ParentDir,
    Normal(&'a [u8]),
}

impl<'a> View for PathComponent<'a> {
    type V = ComponentView;

    open spec fn view(&self) -> ComponentView {
        match self {
            PathComponent::RootDir => ComponentView::RootDir,
            PathComponent::CurDir => ComponentView::CurDir,
            PathComponent::ParentDir => ComponentView::ParentDir,
            PathComponent::Normal(n) => ComponentView::Normal(n@),
        }
    }
}

/// The views of a sequence of components.
pub open spec fn component_views<'a>(cs: Seq<PathComponent<'a>>) -> Seq<ComponentView> {
    cs.map_values(|c: PathComponent<'a>| c@)
}

/// The component, if any, that one `/`-free segment contributes.
pub open spec fn segment_components(seg: Seq<u8>) -> Seq<ComponentView> {
    if seg.len() == 0 || seg == seq![0x2Eu8] {
        seq![]
    } else if seg == seq![0x2Eu8, 0x2Eu8] {
        seq![ComponentView::ParentDir]
    } else {
        seq![ComponentView::Normal(seg)]
    }
}

/// The components of `rest`, where `seg` is the part of the current
/// segment already read.
pub open spec fn body_components(rest: Seq<u8>, seg: Seq<u8>) -> Seq<ComponentView>
    decreases rest.len(),
{
    if rest.len() == 0 {
        segment_components(seg)
    } else if rest[0] == 0x2F {
        segment_components(seg) + body_components(rest.skip(1), seq![])
    } else {
        body_components(rest.skip(1), seg.push(rest[0]))
    }
}

/// Whether a relative path begins with a `.` segment (`.` alone or `./...`).
pub open spec fn starts_with_cur_dir(p: Seq<u8>) -> bool {
    (p.len() == 1 && p[0] == 0x2E) || (p.len() >= 2 && p[0] == 0x2E && p[1] == 0x2F)
}

/// The components of a path.
pub open spec fn path_components(p: Seq<u8>) -> Seq<ComponentView> {
    let head = if p.len() > 0 && p[0] == 0x2F {
        seq![ComponentView::RootDir]
    } else if starts_with_cur_dir(p) {
        seq![ComponentView::CurDir]
    } else {
        seq![]
    };
    head + body_components(p, seq![])
}

/// `Path::starts_with`: the components of `base` begin those of `path`.
pub open spec fn path_starts_with(path: Seq<u8>, base: Seq<u8>) -> bool {
    path_components(base).is_prefix_of(path_components(path))
}

proof fn lemma_views_push<'a>(cs: Seq<PathComponent<'a>>, c: PathComponent<'a>)
    ensures
        component_views(cs.push(c)) == component_views(cs).push(c@),
{
    assert(component_views(cs.push(c)) =~= component_views(cs).push(c@));
}

/// The component of the segment `path[start..end]`, if it gives one.
fn segment_component<'a>(path: &'a [u8], start: usize, end: usize) -> (r: Option<PathComponent<'a>>)
    requires
        start <= end <= path@.len(),
    ensures
        segment_components(path@.subrange(start as int, end as int)) == match r {
            Some(c) => seq![c@],
            None => Seq::<ComponentView>::empty(),
        },
{
    let ghost seg = path@.subrange(start as int, end as int);
    let len = end - start;
    if len == 0 || (len == 1 && path[start] == 0x2E) {
        assert(len == 1 ==> seg =~= seq![0x2Eu8]);
        None
    } else if len == 2 && path[start] == 0x2E && path[start + 1] == 0x2E {
        assert(seg =~= seq![0x2Eu8, 0x2Eu8]);
        Some(PathComponent::ParentDir)
    } else {
        assert(seg != seq![0x2Eu8] && seg != seq![0x2Eu8, 0x2Eu8]) by {
            if len == 1 {
                assert(seg[0] == path@[start as int]);
            }
            if len == 2 {
                assert(seg[0] == path@[start as int]);
                assert(seg[1] == path@[start + 1]);
            }
        }
        Some(PathComponent::Normal(vstd::slice::slice_subrange(path, start, end)))
    }
}

/// Splits a path into its components.
pub fn components<'a>(path: &'a [u8]) -> (r: Vec<PathComponent<'a>>)
    ensures
        component_views(r@) == path_components(path@),
{
    let n = path.len();
    let mut r: Vec<PathComponent<'a>> = Vec::new();
    if n > 0 && path[0] == 0x2F {
        r.push(PathComponent::RootDir);
    } else if (n == 1 && path[0] == 0x2E) || (n >= 2 && path[0] == 0x2E && path[1] == 0x2F) {
        r.push(PathComponent::CurDir);
    }
    assert(path@.skip(0) =~= path@);
    assert(path@.subrange(0, 0) =~= Seq::<u8>::empty());
    assert(component_views(r@) =~= if n > 0 && path@[0] == 0x2F {
        seq![ComponentView::RootDir]
    } else if starts_with_cur_dir(path@) {
        seq![ComponentView::CurDir]
    } else {
        Seq::<ComponentView>::empty()
    });
    let mut start: usize = 0;
    let mut i: usize = 0;
    while i < n
        invariant
            n == path@.len(),
            start <= i <= n,
            component_views(r@) + body_components(
                path@.skip(i as int),
                path@.subrange(start as int, i as int),
            ) == path_components(path@),
        decreases n - i,
    {
        let ghost rest = path@.skip(i as int);
        let ghost seg = path@.subrange(start as int, i as int);
        assert(rest[0] == path@[i as int]);
        assert(rest.skip(1) =~= path@.skip(i + 1));
        if path[i] == 0x2F {
            let ghost r_before = r@;
            match segment_component(path, start, i) {
                Some(c) => {
                    r.push(c);
                    proof {
                        lemma_views_push(r_before, c);
                    }
                },
                None => {},
            }
            assert(path@.subrange(i + 1, i + 1) =~= Seq::<u8>::empty());
            assert(component_views(r@) + body_components(path@.skip(i + 1), Seq::<u8>::empty())
                =~= component_views(r_before) + body_components(rest, seg));
            start = i + 1;
        } else {
            assert(seg.push(path@[i as int]) =~= path@.subrange(start as int, i + 1));
        }
        i = i + 1;
    }
    let ghost r_before = r@;
    let ghost seg = path@.subrange(start as int, n as int);
    assert(path@.skip(n as int) =~= Seq::<u8>::empty());
    match segment_component(path, start, n) {
        Some(c) => {
            r.push(c);
            proof {
                lemma_views_push(r_before, c);
            }
        },
        None => {},
    }
    assert(component_views(r@) =~= component_views(r_before) + segment_components(seg));
    r
}

/// Compares two byte strings.
pub fn bytes_eq(a: &[u8], b: &[u8]) -> (r: bool)
    ensures
        r == (a@ == b@),
{
    if a.len() != b.len() {
        return false;
    }
    let mut i: usize = 0;
    while i < a.len()
        invariant
            a@.len() == b@.len(),
            i <= a@.len(),
            forall|j: int| 0 <= j < i ==> a@[j] == b@[j],
        decreases a@.len() - i,
    {
        if a[i] != b[i] {
            return false;
        }
        i = i + 1;
    }
    assert(a@ =~= b@);
    true
}

/// Compares two components.
fn component_eq(a: &PathComponent, b: &PathComponent) -> (r: bool)
    ensures
        r == (a@ == b@),
{
    match (a, b) {
        (PathComponent::RootDir, PathComponent::RootDir) => true,
        (PathComponent::CurDir, PathComponent::CurDir) => true,
        (PathComponent::ParentDir, PathComponent::ParentDir) => true,
        (PathComponent::Normal(x), PathComponent::Normal(y)) => bytes_eq(x, y),
        _ => false,
    }
}

/// Whether the components `prefix` begin the components `comps`.
fn components_start_with(comps: &Vec<PathComponent>, prefix: &Vec<PathComponent>) -> (r: bool)
    ensures
        r == component_views(prefix@).is_prefix_of(component_views(comps@)),
{
    if prefix.len() > comps.len() {
        return false;
    }
    let mut i: usize = 0;
    while i < prefix.len()
        invariant
            prefix@.len() <= comps@.len(),
            i <= prefix@.len(),
            forall|j: int| 0 <= j < i ==> #[trigger] prefix@[j]@ == comps@[j]@,
        decreases prefix@.len() - i,
    {
        if !component_eq(&prefix[i], &comps[i]) {
            assert(component_views(prefix@)[i as int] != component_views(comps@).subrange(
                0,
                prefix@.len() as int,
            )[i as int]);
            return false;
        }
        i = i + 1;
    }
    assert(component_views(prefix@) =~= component_views(comps@).subrange(0, prefix@.len() as int));
    true
}

/// `Path::starts_with` on byte paths.
pub fn starts_with(path: &[u8], base: &[u8]) -> (r: bool)
    ensures
        r == path_starts_with(path@, base@),
{
    let pc = components(path);
    let bc = components(base);
    components_start_with(&pc, &bc)
}

/// `Path::file_name`: the last component, when it is a normal name.
pub open spec fn file_name(comps: Seq<ComponentView>) -> Option<Seq<u8>> {
    if comps.len() > 0 {
        match comps.last() {
            ComponentView::Normal(n) => Some(n),
            _ => None,
        }
    } else {
        None
    }
}

/// The index of the last `.` in `name[..end]`.
pub open spec fn last_dot(name: Seq<u8>, end: int) -> Option<int>
    decreases end,
{
    if end <= 0 {
        None
    } else if name[end - 1] == 0x2E {
        Some(end - 1)
    } else {
        last_dot(name, end - 1)
    }
}

/// The extension of a file name: what follows its last `.`, unless that
/// `.` is the first byte (a hidden name) or the name is `..`.
pub open spec fn name_extension(name: Seq<u8>) -> Option<Seq<u8>> {
    if name == seq![0x2Eu8, 0x2Eu8] {
        None
    } else {
        match last_dot(name, name.len() as int) {
            Some(k) => if k == 0 {
                None
            } else {
                Some(name.skip(k + 1))
            },
            None => None,
        }
    }
}

/// `Path::extension` on byte paths.
pub open spec fn path_extension(p: Seq<u8>) -> Option<Seq<u8>> {
    match file_name(path_components(p)) {
        Some(n) => name_extension(n),
        None => None,
    }
}

/// The extension of a path, borrowed from it.
pub fn extension<'a>(path: &'a [u8]) -> (r: Option<&'a [u8]>)
    ensures
        match r {
            Some(e) => path_extension(path@) == Some(e@),
            None => path_extension(path@) is None,
        },
{
    let comps = components(path);
    let len = comps.len();
    if len == 0 {
        return None;
    }
    assert(component_views(comps@).last() == comps@[len - 1]@);
    let name: &'a [u8] = match comps[len - 1] {
        PathComponent::Normal(n) => n,
        _ => {
            return None;
        },
    };
    if name.len() == 2 && name[0] == 0x2E && name[1] == 0x2E {
        assert(name@ =~= seq![0x2Eu8, 0x2Eu8]);
        return None;
    }
    assert(file_name(path_components(path@)) == Some(name@));
    assert(name@ != seq![0x2Eu8, 0x2Eu8]) by {
        if name@ == seq![0x2Eu8, 0x2Eu8] {
            assert(name@[0] == 0x2E && name@[1] == 0x2E);
        }
    }
    let mut k: usize = name.len();
    while k > 0
        invariant
            k <= name@.len(),
            name@ != seq![0x2Eu8, 0x2Eu8],
            path_extension(path@) == name_extension(name@),
            last_dot(name@, name@.len() as int) == last_dot(name@, k as int),
        decreases k,
    {
        if name[k - 1] == 0x2E {
            if k - 1 == 0 {
                return None;
            }
            return Some(vstd::slice::slice_subrange(name, k, name.len()));
        }
        k = k - 1;
    }
    None
}

/// Whether a name is hidden: it begins with `.` (read as text with
/// malformed UTF-8 replaced, which is the same as its first byte being `.`).
pub open spec fn hidden_name(name: Seq<u8>) -> bool {
    name.len() > 0 && name[0] == 0x2E
}

/// Whether some normal component of the path is a hidden name.
pub open spec fn has_hidden_component(comps: Seq<ComponentView>) -> bool {
    exists|k: int|
        0 <= k < comps.len() && (#[trigger] comps[k] matches ComponentView::Normal(n) && hidden_name(n))
}

/// Whether a text begins with `.`.
pub fn starts_with_dot(text: &str) -> (r: bool)
    ensures
        r == (text@.len() > 0 && text@[0] == '.'),
{
    text.unicode_len() > 0 && text.get_char(0) == '.'
}

/// Whether a name is hidden.
fn is_hidden_name(name: &[u8]) -> (r: bool)
    ensures
        r == hidden_name(name@),
{
    let text = utf8_lossy(name);
    let r = starts_with_dot(text.as_str());
    proof {
        if name@.len() > 0 && name@[0] < 0x80 {
            assert((name@[0] as char == '.') == (name@[0] == 0x2E));
        }
    }
    r
}

/// Whether an extension that is already lowercase is `md` or `markdown`.
pub fn is_markdown_lowercase_ext(ext: &str) -> (r: bool)
    ensures
        r == (ext@ == "md"@ || ext@ == "markdown"@),
{
    str_eq(ext, "md") || str_eq(ext, "markdown")
}

/// Whether any normal component of the components is hidden.
fn any_hidden(comps: &Vec<PathComponent>) -> (r: bool)
    ensures
        r == has_hidden_component(component_views(comps@)),
{
    let mut i: usize = 0;
    while i < comps.len()
        invariant
            i <= comps@.len(),
            forall|k: int|
                0 <= k < i ==> !(#[trigger] component_views(comps@)[k] matches ComponentView::Normal(
                    n,
                ) && hidden_name(n)),
        decreases comps@.len() - i,
    {
        match &comps[i] {
            PathComponent::Normal(n) => {
                if is_hidden_name(n) {
                    assert(component_views(comps@)[i as int] == ComponentView::Normal(n@));
                    return true;
                }
            },
            _ => {},
        }
        i = i + 1;
    }
    false
}

/// The system directories no asset may come from, by index.
pub open spec fn prohibited_root_at(i: int) -> &'static str {
    if i == 0 {
        "/etc"
    } else if i == 1 {
        "/proc"
    } else if i == 2 {
        "/sys"
    } else if i == 3 {
        "/dev"
    } else if i == 4 {
        "/run"
    } else if i == 5 {
        "/var"
    } else {
        "/root"
    }
}

/// The number of prohibited system directories.
pub open spec fn prohibited_root_count() -> int {
    7
}

/// Whether a path lies under one of the prohibited system directories.
pub open spec fn under_prohibited_root(p: Seq<u8>) -> bool {
    exists|i: int|
        0 <= i < prohibited_root_count() && path_starts_with(p, #[trigger] prohibited_root_at(i).spec_bytes())
}

fn prohibited_root(i: usize) -> (r: &'static str)
    requires
        i < 7,
    ensures
        r == prohibited_root_at(i as int),
{
    if i == 0 {
        "/etc"
    } else if i == 1 {
        "/proc"
    } else if i == 2 {
        "/sys"
    } else if i == 3 {
        "/dev"
    } else if i == 4 {
        "/run"
    } else if i == 5 {
        "/var"
    } else {
        "/root"
    }
}

/// Whether the components lie under a prohibited system directory.
fn in_prohibited_root(path: &[u8], comps: &Vec<PathComponent>) -> (r: bool)
    requires
        component_views(comps@) == path_components(path@),
    ensures
        r == under_prohibited_root(path@),
{
    let mut i: usize = 0;
    while i < 7
        invariant
            i <= 7,
            component_views(comps@) == path_components(path@),
            forall|j: int|
                0 <= j < i ==> !path_starts_with(path@, #[trigger] prohibited_root_at(j).spec_bytes()),
        decreases 7 - i,
    {
        let root = prohibited_root(i);
        let rc = components(root.as_bytes());
        if components_start_with(comps, &rc) {
            return true;
        }
        i = i + 1;
    }
    false
}

/// An extension as lowercase text: read as text with malformed UTF-8
/// replaced, then lowercased. For an ASCII extension this is its ASCII
/// lowercase.
pub open spec fn lowercase_text(e: Seq<u8>) -> Seq<char> {
    if is_ascii_bytes(e) {
        ascii_lowercase(ascii_chars(e))
    } else {
        unicode_lowercase(lossy_utf8(e))
    }
}

/// Whether an extension, in any case, is that of an allowed image.
pub open spec fn image_extension(e: Seq<u8>) -> bool {
    image_mime(lowercase_text(e)) is Some
}

/// Whether an extension, lowercased, is `md` or `markdown`.
pub open spec fn markdown_extension(e: Seq<u8>) -> bool {
    let l = lowercase_text(e);
    l == "md"@ || l == "markdown"@
}

/// An extension read as text and lowercased.
fn lowercase_extension(e: &[u8]) -> (r: String)
    ensures
        r@ == lowercase_text(e@),
{
    let text = utf8_lossy(e);
    proof {
        if is_ascii_bytes(e@) {
            lemma_ascii_bytes_decode(e@);
        }
    }
    to_lowercase(text.as_str())
}

/// When a resolved asset path may be served: it lies under no prohibited
/// system directory, no component is hidden, its extension is an allowed
/// image type, and it lies inside the base directory.
pub open spec fn asset_path_allowed(target: Seq<u8>, base: Seq<u8>) -> bool {
    &&& !under_prohibited_root(target)
    &&& !has_hidden_component(path_components(target))
    &&& path_extension(target) matches Some(e) && image_extension(e)
    &&& path_starts_with(target, base)
}

/// When a resolved link target may be opened as Markdown: it lies inside the
/// base directory, its extension is `md` or `markdown` in any case, and no
/// component is hidden.
pub open spec fn markdown_target_allowed(target: Seq<u8>, base: Seq<u8>) -> bool {
    &&& path_starts_with(target, base)
    &&& path_extension(target) matches Some(e) && markdown_extension(e)
    &&& !has_hidden_component(path_components(target))
}

/// The sandbox check for images requested through the asset protocol.
/// Both paths must already be canonical (symbolic links and `..` resolved);
/// the target is returned when it may be served.
pub fn is_safe_asset_path(canonical_target: &[u8], canonical_base: &[u8]) -> (r: Option<Vec<u8>>)
    ensures
        r is Some <==> asset_path_allowed(canonical_target@, canonical_base@),
        r matches Some(p) ==> p@ == canonical_target@,
{
    let comps = components(canonical_target);
    if in_prohibited_root(canonical_target, &comps) {
        return None;
    }
    if any_hidden(&comps) {
        return None;
    }
    let ext = match extension(canonical_target) {
        Some(e) => e,
        None => {
            return None;
        },
    };
    let ext_text = utf8_lossy(ext);
    proof {
        if is_ascii_bytes(ext@) {
            lemma_ascii_bytes_decode(ext@);
        }
    }
    if get_image_mime(ext_text.as_str()).is_none() {
        return None;
    }
    let base = components(canonical_base);
    if !components_start_with(&comps, &base) {
        return None;
    }
    Some(slice_to_vec(canonical_target))
}

/// The check for local Markdown links opened in a new window. Both paths
/// must already be canonical; the target is returned when it may be opened.
pub fn resolve_safe_markdown_target(canonical_target: &[u8], canonical_base: &[u8]) -> (r: Option<Vec<u8>>)
    ensures
        r is Some <==> markdown_target_allowed(canonical_target@, canonical_base@),
        r matches Some(p) ==> p@ == canonical_target@,
{
    let comps = components(canonical_target);
    let base = components(canonical_base);
    if !components_start_with(&comps, &base) {
        return None;
    }
    let ext = match extension(canonical_target) {
        Some(e) => e,
        None => {
            return None;
        },
    };
    let lower = lowercase_extension(ext);
    if !is_markdown_lowercase_ext(lower.as_str()) {
        return None;
    }
    if any_hidden(&comps) {
        return None;
    }
    Some(slice_to_vec(canonical_target))
}

/// The `Content-Type` an asset is served with: its image MIME type, or
/// `application/octet-stream` when the extension is missing or unknown.
pub open spec fn asset_content_type_of(p: Seq<u8>) -> &'static str {
    let e = match path_extension(p) {
        Some(e) => e,
        None => Seq::<u8>::empty(),
    };
    match image_mime(lowercase_text(e)) {
        Some(m) => m,
        None => "application/octet-stream",
    }
}

/// The `Content-Type` for a file served through the asset protocol.
pub fn asset_content_type(path: &[u8]) -> (r: &'static str)
    ensures
        r == asset_content_type_of(path@),
{
    let empty: [u8; 0] = [];
    let ext: &[u8] = match extension(path) {
        Some(e) => e,
        None => &empty,
    };
    assert(ext@ == match path_extension(path@) {
        Some(e) => e,
        None => Seq::<u8>::empty(),
    }) by {
        if path_extension(path@) is None {
            assert(ext@ =~= Seq::<u8>::empty());
        }
    }
    let text = utf8_lossy(ext);
    proof {
        if is_ascii_bytes(ext@) {
            lemma_ascii_bytes_decode(ext@);
        }
    }
    match get_image_mime(text.as_str()) {
        Some(m) => m,
        None => "application/octet-stream",
    }
}

/// Whether the last normal component of `path` is `name`, as
/// `path.file_name() == Some(name)` tells.
pub fn has_file_name(path: &[u8], name: &[u8]) -> (r: bool)
    ensures
        r == (file_name(path_components(path@)) == Some(name@)),
{
    let comps = components(path);
    let len = comps.len();
    if len == 0 {
        return false;
    }
    assert(component_views(comps@).last() == comps@[len - 1]@);
    match comps[len - 1] {
        PathComponent::Normal(n) => bytes_eq(n, name),
        _ => false,
    }
}

/// The length of the root (`/`) or current-directory (`.`) prefix, which
/// `Path::parent` never removes.
pub open spec fn prefix_len(p: Seq<u8>) -> int {
    if p.len() > 0 && p[0] == 0x2F {
        1
    } else if starts_with_cur_dir(p) {
        1
    } else {
        0
    }
}

/// Where the last segment of `p[lo..end]` starts: just after its last `/`,
/// or at `lo` when it has none.
pub open spec fn last_segment_start(p: Seq<u8>, lo: int, end: int) -> int
    decreases end - lo,
{
    if end <= lo {
        lo
    } else if p[end - 1] == 0x2F {
        end
    } else {
        last_segment_start(p, lo, end - 1)
    }
}

/// Whether the segment `p[s..end]` gives no component (it is empty or `.`).
pub open spec fn segment_skipped(p: Seq<u8>, s: int, end: int) -> bool {
    end - s == 0 || (end - s == 1 && p[s] == 0x2E)
}

/// The end of `p[..end]` cut back to before the last segment and the `/`
/// in front of it.
pub open spec fn cut_last_segment(p: Seq<u8>, lo: int, end: int) -> int {
    let s = last_segment_start(p, lo, end);
    if s > lo {
        s - 1
    } else {
        lo
    }
}

/// The end of `p[..end]` once trailing empty and `.` segments are removed.
pub open spec fn trim_end(p: Seq<u8>, lo: int, end: int) -> int
    decreases end - lo,
{
    if end <= lo {
        end
    } else if segment_skipped(p, last_segment_start(p, lo, end), end) && cut_last_segment(p, lo, end) < end {
        trim_end(p, lo, cut_last_segment(p, lo, end))
    } else {
        end
    }
}

/// `Path::parent` on byte paths: the path without its last component, with
/// trailing separators and `.` segments removed; `None` for the root and
/// for the empty path.
pub open spec fn path_parent(p: Seq<u8>) -> Option<Seq<u8>> {
    let lo = prefix_len(p);
    let end = trim_end(p, lo, p.len() as int);
    if end > lo {
        Some(p.take(trim_end(p, lo, cut_last_segment(p, lo, end))))
    } else if p.len() > 0 && p[0] == 0x2F {
        None
    } else if starts_with_cur_dir(p) {
        Some(Seq::<u8>::empty())
    } else {
        None
    }
}

fn last_segment_start_exec(p: &[u8], lo: usize, end: usize) -> (s: usize)
    requires
        lo <= end <= p@.len(),
    ensures
        s == last_segment_start(p@, lo as int, end as int),
        lo <= s <= end,
{
    let mut e = end;
    while e > lo
        invariant
            lo <= e <= end <= p@.len(),
            last_segment_start(p@, lo as int, e as int) == last_segment_start(p@, lo as int, end as int),
        decreases e,
    {
        if p[e - 1] == 0x2F {
            return e;
        }
        e = e - 1;
    }
    lo
}

fn trim_end_exec(p: &[u8], lo: usize, end: usize) -> (r: usize)
    requires
        lo <= end <= p@.len(),
    ensures
        r == trim_end(p@, lo as int, end as int),
        lo <= r <= end,
{
    let mut e = end;
    loop
        invariant
            lo <= e <= end <= p@.len(),
            trim_end(p@, lo as int, e as int) == trim_end(p@, lo as int, end as int),
        decreases e - lo,
    {
        if e <= lo {
            return e;
        }
        let s = last_segment_start_exec(p, lo, e);
        let cut = if s > lo { s - 1 } else { lo };
        if e - s == 0 || (e - s == 1 && p[s] == 0x2E) {
            assert(segment_skipped(p@, s as int, e as int));
            e = cut;
        } else {
            return e;
        }
    }
}

/// The parent of a path, as `Path::parent` gives it.
pub fn parent(path: &[u8]) -> (r: Option<&[u8]>)
    ensures
        match r {
            Some(q) => path_parent(path@) == Some(q@),
            None => path_parent(path@) is None,
        },
{
    let n = path.len();
    let lo: usize = if n > 0 && path[0] == 0x2F {
        1
    } else if (n == 1 && path[0] == 0x2E) || (n >= 2 && path[0] == 0x2E && path[1] == 0x2F) {
        1
    } else {
        0
    };
    let end = trim_end_exec(path, lo, n);
    if end > lo {
        let s = last_segment_start_exec(path, lo, end);
        let cut = if s > lo { s - 1 } else { lo };
        let k = trim_end_exec(path, lo, cut);
        Some(vstd::slice::slice_subrange(path, 0, k))
    } else if n > 0 && path[0] == 0x2F {
        None
    } else if (n == 1 && path[0] == 0x2E) || (n >= 2 && path[0] == 0x2E && path[1] == 0x2F) {
        assert(path@.subrange(0, 0) =~= Seq::<u8>::empty());
        Some(vstd::slice::slice_subrange(path, 0, 0))
    } else {
        None
    }
}

/// The directory of a file, as the viewer takes it: its parent, or `/`
/// when it has none.
pub fn parent_or_root(path: &[u8]) -> (r: Vec<u8>)
    ensures
        r@ == match path_parent(path@) {
            Some(q) => q,
            None => "/".spec_bytes(),
        },
{
    match parent(path) {
        Some(q) => slice_to_vec(q),
        None => slice_to_vec("/".as_bytes()),
    }
}

} // verus!
