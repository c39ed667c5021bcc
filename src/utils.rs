//! Writing sidecar headers and records, and reshaping scope paths.

use vstd::prelude::*;
use crate::consts::{END_INFO, FILE, FILE_COMMENT, MOD_COMMENT};
use crate::text::{chars_of, join_spec, push_all, push_str, string_of};
use crate::types::{nodes_view, path_text_spec, strings_view, NodeView, Type, TypeStruct};

verus! {

/// The strings joined with `join_part` between each two.
pub fn join(s: &[String], join_part: &str) -> (r: String)
    ensures
        r@ == join_spec(s@.map_values(|s: String| s@), join_part@),
{
    let sep = chars_of(join_part);
    let mut ret: Vec<char> = Vec::new();
    let mut it: usize = 0;
    let ghost sv = s@.map_values(|s: String| s@);
    while it < s.len()
        invariant
            it <= s@.len(),
            sv == s@.map_values(|s: String| s@),
            sep@ == join_part@,
            ret@ == join_spec(sv.subrange(0, it as int), join_part@),
        decreases s@.len() - it,
    {
        assert(sv.subrange(0, it + 1).drop_last() =~= sv.subrange(0, it as int));
        if it > 0 {
            push_all(&mut ret, &sep);
        }
        push_str(&mut ret, s[it].as_str());
        it += 1;
        assert(ret@ =~= join_spec(sv.subrange(0, it as int), join_part@));
    }
    assert(sv.subrange(0, it as int) =~= sv);
    string_of(ret.as_slice())
}

/// A record: the header naming `id` (without its macro ancestors when
/// `ignore_macro`), then the comment.
pub fn write_comment(id: &TypeStruct, comment: &str, ignore_macro: bool) -> (r: String)
    ensures
        r@ == record_spec(id@, comment@, ignore_macro),
{
    let mut out = chars_of(MOD_COMMENT);
    push_all(&mut out, &id.path_text(ignore_macro));
    push_str(&mut out, END_INFO);
    out.push('\n');
    push_str(&mut out, comment);
    string_of(out.as_slice())
}

/// Appends to `w` the header of the record of `id`, its macro ancestors left
/// out, then the record's text.
pub fn write_item_doc(w: &mut String, id: &TypeStruct, body: &str)
    ensures
        final(w)@ == old(w)@ + MOD_COMMENT@ + path_text_spec(id@, true) + END_INFO@ + seq!['\n']
            + body@,
{
    let mut out = chars_of(w.as_str());
    push_str(&mut out, MOD_COMMENT);
    push_all(&mut out, &id.path_text(true));
    push_str(&mut out, END_INFO);
    out.push('\n');
    push_str(&mut out, body);
    *w = string_of(out.as_slice());
}

/// A record with header `id` (its macro ancestors left out when
/// `ignore_macro`) and text `comment`.
pub open spec fn record_spec(id: Seq<NodeView>, comment: Seq<char>, ignore_macro: bool) -> Seq<
    char,
> {
    MOD_COMMENT@ + path_text_spec(id, ignore_macro) + END_INFO@ + seq!['\n'] + comment
}

/// A file or module doc comment record: the header, naming the module when
/// there is one, then the comment.
pub open spec fn file_comment_spec(
    comment: Seq<char>,
    id: Option<Seq<NodeView>>,
    ignore_macro: bool,
) -> Seq<char> {
    match id {
        Some(t) => FILE_COMMENT@ + seq![' '] + path_text_spec(t, ignore_macro) + END_INFO@
            + seq!['\n'] + comment,
        None => FILE_COMMENT@ + END_INFO@ + seq!['\n'] + comment,
    }
}

/// A file or module doc comment record: the header, naming the module when
/// there is one, then the comment.
pub fn write_file_comment(comment: &str, id: &Option<TypeStruct>, ignore_macro: bool) -> (r:
    String)
    ensures
        r@ == file_comment_spec(
            comment@,
            match id {
                Some(t) => Some(t@),
                None => None,
            },
            ignore_macro,
        ),
{
    let mut out = chars_of(FILE_COMMENT);
    if let Some(t) = id {
        out.push(' ');
        push_all(&mut out, &t.path_text(ignore_macro));
    }
    push_str(&mut out, END_INFO);
    out.push('\n');
    push_str(&mut out, comment);
    string_of(out.as_slice())
}

/// The header of the section of file `file`.
pub fn write_file(file: &str) -> (r: String)
    ensures
        r@ == FILE@ + file@ + END_INFO@,
{
    let mut out = chars_of(FILE);
    push_str(&mut out, file);
    push_str(&mut out, END_INFO);
    string_of(out.as_slice())
}

/// Appends to `w` the header line of the section of file `name`, or of the
/// section for every file (`*`) when there is no name.
pub fn write_file_name(w: &mut String, name: Option<&str>)
    ensures
        final(w)@ == old(w)@ + FILE@ + match name {
            Some(n) => n@,
            None => "*"@,
        } + END_INFO@ + seq!['\n'],
{
    let mut out = chars_of(w.as_str());
    push_str(&mut out, FILE);
    match name {
        Some(n) => push_str(&mut out, n),
        None => push_str(&mut out, "*"),
    }
    push_str(&mut out, END_INFO);
    out.push('\n');
    *w = string_of(out.as_slice());
}

/// The nodes of `v` that follow its last macro invocation (all of them when
/// there is none).
pub open spec fn after_last_macro(v: Seq<NodeView>) -> Seq<NodeView>
    decreases v.len(),
{
    if v.len() == 0 {
        v
    } else if v.last().ty == Type::Macro {
        Seq::empty()
    } else {
        after_last_macro(v.drop_last()).push(v.last())
    }
}

/// Cuts the path of `tys` at its nearest macro-invocation ancestor: that
/// ancestor and all above it are removed, so that an item written inside a
/// macro call compares equal to the same item named without the call.
pub fn cut_at_nearest_macro(tys: &mut TypeStruct)
    ensures
        final(tys)@ == after_last_macro(old(tys)@.drop_last()).push(old(tys)@.last()),
{
    let ghost pv = nodes_view(tys.parents@);
    let ghost me = tys@;
    let mut k = tys.parents.len();
    assert(pv.len() == k);
    assert(pv.subrange(0, k as int) =~= pv);
    assert(pv.subrange(k as int, k as int) =~= Seq::<NodeView>::empty());
    assert(after_last_macro(pv) =~= after_last_macro(pv) + Seq::<NodeView>::empty());
    while k > 0 && tys.parents[k - 1].ty != Type::Macro
        invariant
            k <= tys.parents@.len(),
            pv == nodes_view(tys.parents@),
            pv.len() == tys.parents@.len(),
            after_last_macro(pv) == after_last_macro(pv.subrange(0, k as int)) + pv.subrange(
                k as int,
                pv.len() as int,
            ),
        decreases k,
    {
        assert(pv.subrange(0, k as int).drop_last() =~= pv.subrange(0, k - 1));
        assert(pv.subrange(k - 1, pv.len() as int) =~= seq![pv[k - 1]] + pv.subrange(
            k as int,
            pv.len() as int,
        ));
        assert(after_last_macro(pv.subrange(0, k as int)) == after_last_macro(
            pv.subrange(0, k - 1),
        ).push(pv[k - 1]));
        assert(after_last_macro(pv) =~= after_last_macro(pv.subrange(0, k - 1)) + pv.subrange(
            k - 1,
            pv.len() as int,
        ));
        k -= 1;
    }
    if k > 0 {
        let mut kept: Vec<crate::types::TypeNode> = Vec::new();
        let mut i = k;
        while i < tys.parents.len()
            invariant
                k <= i <= tys.parents@.len(),
                pv == nodes_view(tys.parents@),
                pv.len() == tys.parents@.len(),
                nodes_view(kept@) == pv.subrange(k as int, i as int),
            decreases tys.parents@.len() - i,
        {
            assert(pv[i as int] == tys.parents@[i as int]@);
            let ghost old_kept = kept@;
            kept.push(tys.parents[i].duplicate());
            assert(nodes_view(kept@) =~= nodes_view(old_kept).push(pv[i as int]));
            i += 1;
            assert(nodes_view(kept@) =~= pv.subrange(k as int, i as int));
        }
        assert(after_last_macro(pv.subrange(0, k as int)) =~= Seq::<NodeView>::empty());
        assert(pv.subrange(k as int, i as int) =~= after_last_macro(pv));
        tys.parents = kept;
    } else {
        assert(pv.subrange(0, 0) =~= Seq::<NodeView>::empty());
        assert(pv.subrange(0, pv.len() as int) =~= pv);
    }
    assert(me.drop_last() =~= pv);
    assert(tys@ =~= after_last_macro(me.drop_last()).push(me.last()));
}

} // verus!

verus! {

/// Whether the file walker passes over a file: the sidecar itself, a file
/// that is not Rust source, or one whose path relative to the working
/// directory is listed to be ignored.
pub fn skip_file(relative: &str, is_sidecar: bool, is_rust_source: bool, files_to_ignore: &Vec<String>) -> (r: bool)
    ensures
        r == (is_sidecar || !is_rust_source || exists|i: int|
            0 <= i < files_to_ignore@.len() && #[trigger] files_to_ignore@[i]@ == relative@),
{
    if is_sidecar || !is_rust_source {
        return true;
    }
    let mut i: usize = 0;
    while i < files_to_ignore.len()
        invariant
            i <= files_to_ignore@.len(),
            forall|j: int| 0 <= j < i ==> #[trigger] files_to_ignore@[j]@ != relative@,
        decreases files_to_ignore@.len() - i,
    {
        if crate::text::str_eq(files_to_ignore[i].as_str(), relative) {
            return true;
        }
        i += 1;
    }
    false
}

/// If the oldest ancestor of `tys` (the one with no parent of its own) is a
/// macro invocation, removes it; otherwise the path stays as it is. An item
/// whose whole path sits inside one macro call then compares equal to the
/// same item written outside the call.
pub fn remove_macro_parent(tys: &mut TypeStruct)
    ensures
        old(tys)@.len() > 1 && old(tys)@[0].ty == Type::Macro ==> final(tys)@ == old(tys)@.skip(1),
        !(old(tys)@.len() > 1 && old(tys)@[0].ty == Type::Macro) ==> final(tys)@ == old(tys)@,
{
    let ghost me = tys@;
    assert(me.len() == tys.parents@.len() + 1);
    if tys.parents.len() > 0 && tys.parents[0].ty == Type::Macro {
        assert(me[0] == tys.parents@[0]@);
        let ghost pv = nodes_view(tys.parents@);
        tys.parents.remove(0);
        assert(nodes_view(tys.parents@) =~= pv.skip(1));
        assert(tys@ =~= me.skip(1));
    } else {
        proof {
            if tys.parents@.len() > 0 {
                assert(me[0] == tys.parents@[0]@);
            }
        }
    }
}

} // verus!
