//! Laws of the sandbox rules, stated over the inputs: where a file placed
//! in a directory lands among the path's components, which extension it
//! has (what follows the last `.` of its name), and when it is served as an
//! image, opened as Markdown, and with which `Content-Type`.

use vstd::prelude::*;
use vstd::string::StringSliceAdditionalSpecFns;
use vstd::utf8::{encode_utf8, is_ascii_chars, is_ascii_chars_encode_utf8};
use crate::mime::image_mime;
use crate::path::{
    asset_content_type_of, asset_path_allowed, body_components, file_name, has_hidden_component,
    last_dot, lowercase_text, markdown_target_allowed, name_extension, path_components,
    path_extension, prohibited_root_at, segment_components, starts_with_cur_dir, ComponentView,
};

verus! {

/// Whether the byte `b` does not occur in `s`.
pub open spec fn free_of(s: Seq<u8>, b: u8) -> bool {
    forall|i: int| 0 <= i < s.len() ==> #[trigger] s[i] != b
}

/// The file name `stem.ext`.
pub open spec fn dotted_name(stem: Seq<u8>, ext: Seq<u8>) -> Seq<u8> {
    stem + seq![0x2Eu8] + ext
}

/// The path `dir/name`.
pub open spec fn joined(dir: Seq<u8>, name: Seq<u8>) -> Seq<u8> {
    dir + seq![0x2Fu8] + name
}

/// A stem and an extension that make a file name with that extension: the
/// stem is not empty and has no `/`; the extension has no `/` and no `.`;
/// and the name is not `..`.
pub open spec fn well_formed_name(stem: Seq<u8>, ext: Seq<u8>) -> bool {
    &&& stem.len() > 0
    &&& free_of(stem, 0x2F)
    &&& free_of(ext, 0x2F)
    &&& free_of(ext, 0x2E)
    &&& (ext.len() > 0 || stem != seq![0x2Eu8])
}

/// A `/`-free segment, read from the start, contributes its own component.
proof fn lemma_body_slash_free(name: Seq<u8>, seg: Seq<u8>)
    requires
        free_of(name, 0x2F),
    ensures
        body_components(name, seg) == segment_components(seg + name),
    decreases name.len(),
{
    if name.len() == 0 {
        assert(seg + name =~= seg);
    } else {
        assert(name[0] != 0x2F);
        assert(free_of(name.skip(1), 0x2F)) by {
            assert forall|i: int| 0 <= i < name.skip(1).len() implies #[trigger] name.skip(1)[i] != 0x2F by {
                assert(name.skip(1)[i] == name[i + 1]);
            }
        }
        lemma_body_slash_free(name.skip(1), seg.push(name[0]));
        assert(seg.push(name[0]) + name.skip(1) =~= seg + name);
    }
}

/// Appending `/name` appends the component of `name`.
proof fn lemma_body_append(r: Seq<u8>, seg: Seq<u8>, name: Seq<u8>)
    requires
        free_of(name, 0x2F),
    ensures
        body_components(r + seq![0x2Fu8] + name, seg) == body_components(r, seg) + segment_components(name),
    decreases r.len(),
{
    let x = r + seq![0x2Fu8] + name;
    if r.len() == 0 {
        assert(x[0] == 0x2F);
        assert(x.skip(1) =~= name);
        lemma_body_slash_free(name, Seq::<u8>::empty());
        assert(Seq::<u8>::empty() + name =~= name);
    } else {
        assert(x[0] == r[0]);
        assert(x.skip(1) =~= r.skip(1) + seq![0x2Fu8] + name);
        if r[0] == 0x2F {
            lemma_body_append(r.skip(1), Seq::<u8>::empty(), name);
            assert(segment_components(seg) + body_components(r.skip(1), Seq::<u8>::empty())
                + segment_components(name) =~= segment_components(seg) + (body_components(
                r.skip(1),
                Seq::<u8>::empty(),
            ) + segment_components(name)));
        } else {
            lemma_body_append(r.skip(1), seg.push(r[0]), name);
        }
    }
}

/// Law: the components of `dir/name`, for a non-empty `dir` and a `/`-free
/// `name`, are those of `dir` followed by the component of `name`.
pub proof fn lemma_components_of_joined(dir: Seq<u8>, name: Seq<u8>)
    requires
        dir.len() > 0,
        free_of(name, 0x2F),
    ensures
        path_components(joined(dir, name)) == path_components(dir) + segment_components(name),
{
    let q = joined(dir, name);
    lemma_body_append(dir, Seq::<u8>::empty(), name);
    assert(q[0] == dir[0]);
    if dir.len() >= 2 {
        assert(q[1] == dir[1]);
    } else {
        assert(q[1] == 0x2F);
    }
    assert(starts_with_cur_dir(q) == starts_with_cur_dir(dir));
    let head = if dir[0] == 0x2F {
        seq![ComponentView::RootDir]
    } else if starts_with_cur_dir(dir) {
        seq![ComponentView::CurDir]
    } else {
        Seq::<ComponentView>::empty()
    };
    assert(path_components(q) =~= head + body_components(dir, Seq::<u8>::empty()) + segment_components(name));
}

/// Law: the components of `/name`, for a `/`-free `name`, are the root and
/// the component of `name`.
pub proof fn lemma_components_of_rooted(name: Seq<u8>)
    requires
        free_of(name, 0x2F),
    ensures
        path_components(joined(Seq::<u8>::empty(), name)) == seq![ComponentView::RootDir] + segment_components(name),
{
    lemma_body_append(Seq::<u8>::empty(), Seq::<u8>::empty(), name);
    let q = joined(Seq::<u8>::empty(), name);
    assert(q[0] == 0x2F);
    assert(body_components(Seq::<u8>::empty(), Seq::<u8>::empty()) =~= Seq::<ComponentView>::empty());
}

/// The last `.` of `name[..end]` is at `k` when no `.` follows it.
proof fn lemma_last_dot_at(name: Seq<u8>, k: int, end: int)
    requires
        0 <= k < end <= name.len(),
        name[k] == 0x2E,
        forall|j: int| k < j < end ==> #[trigger] name[j] != 0x2E,
    ensures
        last_dot(name, end) == Some(k),
    decreases end,
{
    if name[end - 1] != 0x2E {
        lemma_last_dot_at(name, k, end - 1);
    }
}

/// Law: the name `stem.ext` is one normal component, has no `/`, and its
/// extension is `ext`, what follows its last `.`.
pub proof fn lemma_dotted_name(stem: Seq<u8>, ext: Seq<u8>)
    requires
        well_formed_name(stem, ext),
    ensures
        free_of(dotted_name(stem, ext), 0x2F),
        segment_components(dotted_name(stem, ext)) == seq![ComponentView::Normal(dotted_name(stem, ext))],
        name_extension(dotted_name(stem, ext)) == Some(ext),
{
    let name = dotted_name(stem, ext);
    let k = stem.len() as int;
    assert(name[k] == 0x2E);
    assert forall|i: int| 0 <= i < name.len() implies #[trigger] name[i] != 0x2F by {
        if i < k {
            assert(name[i] == stem[i]);
        } else if i > k {
            assert(name[i] == ext[i - k - 1]);
        }
    }
    assert forall|j: int| k < j < name.len() implies #[trigger] name[j] != 0x2E by {
        assert(name[j] == ext[j - k - 1]);
    }
    lemma_last_dot_at(name, k, name.len() as int);
    assert(name != seq![0x2Eu8]) by {
        assert(name.len() >= 2);
    }
    assert(name != seq![0x2Eu8, 0x2Eu8]) by {
        if name == seq![0x2Eu8, 0x2Eu8] {
            assert(ext.len() == 0);
            assert(stem =~= seq![0x2Eu8]) by {
                assert(stem[0] == name[0]);
            }
        }
    }
    assert(name.skip(k + 1) =~= ext);
}

/// Law: a file `stem.ext` placed in any directory has extension `ext`, the
/// text after the last `.` of its name (the stem may hold dots itself), and
/// its name as file name.
pub proof fn lemma_extension_after_last_dot(dir: Seq<u8>, stem: Seq<u8>, ext: Seq<u8>)
    requires
        well_formed_name(stem, ext),
    ensures
        file_name(path_components(joined(dir, dotted_name(stem, ext)))) == Some(dotted_name(stem, ext)),
        path_extension(joined(dir, dotted_name(stem, ext))) == Some(ext),
{
    let name = dotted_name(stem, ext);
    lemma_dotted_name(stem, ext);
    if dir.len() > 0 {
        lemma_components_of_joined(dir, name);
    } else {
        lemma_components_of_rooted(name);
        assert(joined(dir, name) =~= joined(Seq::<u8>::empty(), name));
    }
}

/// Law: a file `stem.ext` in any directory is served with the MIME type of
/// `ext` (compared without regard to case), or as
/// `application/octet-stream` when `ext` is no image type.
pub proof fn lemma_content_type_of_extension(dir: Seq<u8>, stem: Seq<u8>, ext: Seq<u8>)
    requires
        well_formed_name(stem, ext),
    ensures
        asset_content_type_of(joined(dir, dotted_name(stem, ext))) == match image_mime(lowercase_text(ext)) {
            Some(m) => m,
            None => "application/octet-stream",
        },
{
    lemma_extension_after_last_dot(dir, stem, ext);
}

/// The components of an absolute one-name ASCII literal such as `/etc`: the
/// root and one name.
proof fn lemma_literal_root_components(lit: &str)
    requires
        lit@.len() >= 4,
        lit@[0] == '/',
        is_ascii_chars(lit@),
        forall|i: int| 1 <= i < lit@.len() ==> #[trigger] lit@[i] != '/',
    ensures
        path_components(lit.spec_bytes()).len() == 2,
{
    let b = lit.spec_bytes();
    is_ascii_chars_encode_utf8(lit@);
    assert(b.len() == lit@.len());
    let t = b.skip(1);
    assert(b[0] == 0x2F) by {
        assert(lit@[0] as u8 == b[0]);
    }
    assert(free_of(t, 0x2F)) by {
        assert forall|i: int| 0 <= i < t.len() implies #[trigger] t[i] != 0x2F by {
            assert(t[i] == b[i + 1]);
            assert(lit@[i + 1] as u8 == b[i + 1]);
            assert(lit@[i + 1] != '/');
            assert('\0' <= lit@[i + 1] <= '\u{7f}');
        }
    }
    lemma_components_of_rooted(t);
    assert(joined(Seq::<u8>::empty(), t) =~= b);
    assert(t.len() >= 3);
    assert(t != seq![0x2Eu8] && t != seq![0x2Eu8, 0x2Eu8]);
}

/// Every prohibited system directory has two components: the root and a name.
proof fn lemma_prohibited_root_len(i: int)
    requires
        0 <= i < 7,
    ensures
        path_components(prohibited_root_at(i).spec_bytes()).len() == 2,
{
    reveal_strlit("/etc");
    reveal_strlit("/proc");
    reveal_strlit("/sys");
    reveal_strlit("/dev");
    reveal_strlit("/run");
    reveal_strlit("/var");
    reveal_strlit("/root");
    let lit = prohibited_root_at(i);
    assert(lit@.len() >= 4 && lit@[0] == '/');
    assert(is_ascii_chars(lit@));
    assert(forall|j: int| 1 <= j < lit@.len() ==> #[trigger] lit@[j] != '/');
    lemma_literal_root_components(lit);
}

/// Law: an image `stem.ext` placed directly in a base directory that is
/// neither hidden, nor the root, nor under a prohibited system directory,
/// is served exactly when `ext`, in any case, is an allowed image type. The
/// stem may hold dots; it must not start with one.
pub proof fn lemma_image_in_base_is_served(base: Seq<u8>, stem: Seq<u8>, ext: Seq<u8>)
    requires
        path_components(base).len() >= 2,
        !crate::path::under_prohibited_root(base),
        !has_hidden_component(path_components(base)),
        well_formed_name(stem, ext),
        stem[0] != 0x2E,
    ensures
        asset_path_allowed(joined(base, dotted_name(stem, ext)), base) == (image_mime(lowercase_text(ext)) is Some),
{
    let name = dotted_name(stem, ext);
    let target = joined(base, name);
    lemma_dotted_name(stem, ext);
    lemma_extension_after_last_dot(base, stem, ext);
    assert(base.len() > 0);
    lemma_components_of_joined(base, name);
    let bc = path_components(base);
    let tc = path_components(target);
    assert(tc == bc.push(ComponentView::Normal(name)));
    assert(bc.is_prefix_of(tc)) by {
        assert(tc.subrange(0, bc.len() as int) =~= bc);
    }
    assert(!has_hidden_component(tc)) by {
        if has_hidden_component(tc) {
            let k = choose|k: int|
                0 <= k < tc.len() && (#[trigger] tc[k] matches ComponentView::Normal(n)
                    && crate::path::hidden_name(n));
            if k < bc.len() {
                assert(tc[k] == bc[k]);
            } else {
                assert(name[0] == stem[0]);
            }
        }
    }
    assert(!crate::path::under_prohibited_root(target)) by {
        if crate::path::under_prohibited_root(target) {
            let i = choose|i: int|
                0 <= i < crate::path::prohibited_root_count() && crate::path::path_starts_with(
                    target,
                    #[trigger] prohibited_root_at(i).spec_bytes(),
                );
            lemma_prohibited_root_len(i);
            let rc = path_components(prohibited_root_at(i).spec_bytes());
            assert(rc.is_prefix_of(bc)) by {
                assert(bc.subrange(0, rc.len() as int) =~= tc.subrange(0, rc.len() as int));
            }
            assert(crate::path::path_starts_with(base, prohibited_root_at(i).spec_bytes()));
        }
    }
}

/// Law: a Markdown file `stem.ext` placed directly in a non-hidden base
/// directory is opened exactly when `ext`, in any case, is `md` or
/// `markdown`. The stem may hold dots; it must not start with one.
pub proof fn lemma_markdown_in_base_is_opened(base: Seq<u8>, stem: Seq<u8>, ext: Seq<u8>)
    requires
        base.len() > 0,
        !has_hidden_component(path_components(base)),
        well_formed_name(stem, ext),
        stem[0] != 0x2E,
    ensures
        markdown_target_allowed(joined(base, dotted_name(stem, ext)), base) == (lowercase_text(ext) == "md"@
            || lowercase_text(ext) == "markdown"@),
{
    let name = dotted_name(stem, ext);
    let target = joined(base, name);
    lemma_dotted_name(stem, ext);
    lemma_extension_after_last_dot(base, stem, ext);
    lemma_components_of_joined(base, name);
    let bc = path_components(base);
    let tc = path_components(target);
    assert(tc == bc.push(ComponentView::Normal(name)));
    assert(bc.is_prefix_of(tc)) by {
        assert(tc.subrange(0, bc.len() as int) =~= bc);
    }
    assert(!has_hidden_component(tc)) by {
        if has_hidden_component(tc) {
            let k = choose|k: int|
                0 <= k < tc.len() && (#[trigger] tc[k] matches ComponentView::Normal(n)
                    && crate::path::hidden_name(n));
            if k < bc.len() {
                assert(tc[k] == bc[k]);
            } else {
                assert(name[0] == stem[0]);
            }
        }
    }
}

/// Law: whatever the image sandbox lets through lies inside the base
/// directory, has no component whose name starts with `.`, lies under none
/// of the prohibited system directories, and has an extension (after the
/// last `.`) that is an allowed image type in some case.
pub proof fn lemma_served_asset_is_sandboxed(target: Seq<u8>, base: Seq<u8>)
    requires
        asset_path_allowed(target, base),
    ensures
        path_components(base).is_prefix_of(path_components(target)),
        forall|k: int|
            0 <= k < path_components(target).len() ==> !(#[trigger] path_components(target)[k] matches ComponentView::Normal(n)
                && n.len() > 0 && n[0] == 0x2E),
        forall|i: int|
            0 <= i < 7 ==> !path_components(#[trigger] prohibited_root_at(i).spec_bytes()).is_prefix_of(
                path_components(target),
            ),
        path_extension(target) matches Some(e) && image_mime(lowercase_text(e)) is Some,
{
    let tc = path_components(target);
    assert forall|k: int| 0 <= k < tc.len() implies !(#[trigger] tc[k] matches ComponentView::Normal(n) && n.len() > 0
        && n[0] == 0x2E) by {
        if let ComponentView::Normal(n) = tc[k] {
            if n.len() > 0 && n[0] == 0x2E {
                assert(crate::path::hidden_name(n));
                assert(has_hidden_component(tc));
            }
        }
    }
    assert forall|i: int| 0 <= i < 7 implies !path_components(
        #[trigger] prohibited_root_at(i).spec_bytes(),
    ).is_prefix_of(tc) by {
        if path_components(prohibited_root_at(i).spec_bytes()).is_prefix_of(tc) {
            assert(crate::path::path_starts_with(target, prohibited_root_at(i).spec_bytes()));
        }
    }
}

/// Law: whatever is opened as Markdown lies inside the base directory, has
/// no component whose name starts with `.`, and has the extension `md` or
/// `markdown` in some case.
pub proof fn lemma_opened_markdown_is_sandboxed(target: Seq<u8>, base: Seq<u8>)
    requires
        markdown_target_allowed(target, base),
    ensures
        path_components(base).is_prefix_of(path_components(target)),
        forall|k: int|
            0 <= k < path_components(target).len() ==> !(#[trigger] path_components(target)[k] matches ComponentView::Normal(n)
                && n.len() > 0 && n[0] == 0x2E),
        path_extension(target) matches Some(e) && (lowercase_text(e) == "md"@ || lowercase_text(e) == "markdown"@),
{
    let tc = path_components(target);
    assert forall|k: int| 0 <= k < tc.len() implies !(#[trigger] tc[k] matches ComponentView::Normal(n) && n.len() > 0
        && n[0] == 0x2E) by {
        if let ComponentView::Normal(n) = tc[k] {
            if n.len() > 0 && n[0] == 0x2E {
                assert(crate::path::hidden_name(n));
                assert(has_hidden_component(tc));
            }
        }
    }
}

} // verus!
