//! Regeneration: the sidecar is read back into records, and each record's
//! comment is put above the declaration whose scope path it names.

use vstd::prelude::*;
use crate::consts::{END_INFO, FILE, FILE_COMMENT, MOD_COMMENT};
use crate::lexer::{IGNORE_NEXT_COMMENT, IGNORE_NEXT_COMMENT_STOP};
use crate::text::{
    chars_of, occurs_at, replace, replace_spec, seq_eq, slice, split_char, split_seq, split_seq_spec, split_spec,
    string_of, words_of, words_spec,
};
use crate::types::{
    events_view, nodes_view, strings_chars, strings_view, EventInfo, EventType, EventView, type_from_chars, type_from_spec, NodeView, Type, TypeNode,
    TypeStruct,
};
use crate::events::{build_event_list, scan_spec, walk_state};
use crate::strip::{add_to_type_scope, opt_view, scope_in, scope_out, type_out_scope};
use crate::utils::{after_last_macro, cut_at_nearest_macro};

verus! {

/// Whether a sidecar path `a` names the declaration at path `b`: the same
/// path, or `b` a bare word in a struct, enum or `use` body and `a` the
/// variant of that name.
pub open spec fn types_match(a: Seq<NodeView>, b: Seq<NodeView>) -> bool {
    a == b || (a.len() > 1 && b.len() > 1 && b.last().ty == Type::Unknown && a.drop_last()
        == b.drop_last() && (b[b.len() - 2].ty == Type::Struct || b[b.len() - 2].ty
        == Type::Enum || b[b.len() - 2].ty == Type::Use) && a.last() == NodeView {
        ty: Type::Variant,
        name: b.last().name,
        args: b.last().args,
    })
}

/// Whether the sidecar path `a` names the declaration at path `b`.
pub fn type_matches(a: &TypeStruct, b: &TypeStruct) -> (r: bool)
    ensures
        r == types_match(a@, b@),
{
    if a.same_path(b) {
        return true;
    }
    assert(a@.len() == a.parents@.len() + 1 && b@.len() == b.parents@.len() + 1);
    if b.ty != Type::Unknown || a.parents.len() == 0 || b.parents.len() == 0 {
        return false;
    }
    let pa = a.parent();
    let pb = b.parent();
    assert(a@.len() > 1 && b@.len() > 1);
    match (pa, pb) {
        (Some(x), Some(y)) => {
            assert(x@ == a@.drop_last() && y@ == b@.drop_last());
            assert(y@.last().ty == y.ty);
            assert(b@[b@.len() - 2] == y@.last());
            if !x.same_path(&y) {
                return false;
            }
            if !(y.ty == Type::Struct || y.ty == Type::Enum || y.ty == Type::Use) {
                return false;
            }
            let mut node = b.node();
            node.ty = Type::Variant;
            let tmp = y.child(&node);
            assert(b@[b@.len() - 2] == y@.last());
            let r = a.same_path(&tmp);
            assert(r ==> a@.last() == node@);
            proof {
                if a@.last() == node@ {
                    assert(a@ =~= tmp@);
                }
            }
            r
        },
        _ => false,
    }
}

/// The nodes of `v` that are not macro invocations.
pub open spec fn drop_macros(v: Seq<NodeView>) -> Seq<NodeView>
    decreases v.len(),
{
    if v.len() == 0 {
        v
    } else if v.last().ty == Type::Macro {
        drop_macros(v.drop_last())
    } else {
        drop_macros(v.drop_last()).push(v.last())
    }
}

/// Path `p` without its macro-invocation ancestors.
pub open spec fn erase_spec(p: Seq<NodeView>) -> Seq<NodeView> {
    drop_macros(p.drop_last()).push(p.last())
}

pub open spec fn erase_opt(p: Option<Seq<NodeView>>) -> Option<Seq<NodeView>> {
    match p {
        Some(v) => Some(erase_spec(v)),
        None => None,
    }
}

/// The path without its macro-invocation ancestors.
pub fn erase_macro_path(ty: Option<TypeStruct>) -> (r: Option<TypeStruct>)
    ensures
        opt_view(r) == erase_opt(opt_view(ty)),
{
    match ty {
        None => None,
        Some(t) => {
            let ghost pv = nodes_view(t.parents@);
            let mut kept: Vec<TypeNode> = Vec::new();
            let mut i: usize = 0;
            while i < t.parents.len()
                invariant
                    i <= t.parents@.len(),
                    pv == nodes_view(t.parents@),
                    pv.len() == t.parents@.len(),
                    nodes_view(kept@) == drop_macros(pv.subrange(0, i as int)),
                decreases t.parents@.len() - i,
            {
                assert(pv.subrange(0, i + 1).drop_last() =~= pv.subrange(0, i as int));
                assert(pv[i as int] == t.parents@[i as int]@);
                if t.parents[i].ty != Type::Macro {
                    let ghost old_kept = kept@;
                    kept.push(t.parents[i].duplicate());
                    assert(nodes_view(kept@) =~= nodes_view(old_kept).push(pv[i as int]));
                }
                i += 1;
            }
            assert(pv.subrange(0, i as int) =~= t@.drop_last());
            let r = TypeStruct { ty: t.ty, name: t.name, args: t.args, parents: kept };
            assert(r@ =~= erase_spec(t@));
            Some(r)
        },
    }
}

/// Why a sidecar cannot be read.
#[derive(Debug, Clone, Copy, PartialEq, Eq, Structural)]
pub enum SidecarError {
    /// The text does not open with a file header.
    UnrecognizedLine,
    /// A record header names an item without a kind or a name.
    MalformedHeader,
}

/// A record header without its markers.
pub open spec fn header_body(line: Seq<char>) -> Seq<char> {
    replace_spec(
        replace_spec(replace_spec(line, FILE_COMMENT@, Seq::empty()), MOD_COMMENT@, Seq::empty()),
        END_INFO@,
        Seq::empty(),
    )
}

/// The node that one `kind name` part of a header names: the kind is the
/// first word, the name the last.
pub open spec fn node_of_words(w: Seq<Seq<char>>) -> NodeView {
    NodeView { ty: type_from_spec(w[0]), name: w.last(), args: Seq::empty() }
}

/// The path that the parts of a header name, or nothing when a part has no word.
pub open spec fn nodes_of_parts(parts: Seq<Seq<char>>) -> Option<Seq<NodeView>>
    decreases parts.len(),
{
    if parts.len() == 0 {
        Some(Seq::empty())
    } else {
        match nodes_of_parts(parts.drop_last()) {
            None => None,
            Some(v) => if words_spec(parts.last()).len() == 0 {
                None
            } else {
                Some(v.push(node_of_words(words_spec(parts.last()))))
            },
        }
    }
}

/// The path a record header names; none for a bare file-comment header.
pub open spec fn parse_mod_line_spec(line: Seq<char>) -> Result<Option<Seq<NodeView>>, SidecarError> {
    let b = header_body(line);
    if b.len() == 0 {
        Ok(None)
    } else {
        match nodes_of_parts(split_seq_spec(b, seq![':', ':'])) {
            None => Err(SidecarError::MalformedHeader),
            Some(v) => Ok(Some(v)),
        }
    }
}

pub proof fn lemma_nodes_of_parts_len(parts: Seq<Seq<char>>)
    ensures
        nodes_of_parts(parts) is Some ==> nodes_of_parts(parts)->0.len() == parts.len(),
    decreases parts.len(),
{
    if parts.len() > 0 {
        lemma_nodes_of_parts_len(parts.drop_last());
    }
}

/// The path a record header names.
pub fn parse_mod_line(line: &Vec<char>) -> (r: Result<Option<TypeStruct>, SidecarError>)
    ensures
        parse_mod_line_spec(line@) == match r {
            Ok(t) => Ok::<Option<Seq<NodeView>>, SidecarError>(opt_view(t)),
            Err(e) => Err(e),
        },
{
    let e: Vec<char> = Vec::new();
    assert(e@ =~= Seq::<char>::empty());
    let a = replace_nonempty(line, &chars_of(FILE_COMMENT), &e);
    let b = replace_nonempty(&a, &chars_of(MOD_COMMENT), &e);
    let body = replace_nonempty(&b, &chars_of(END_INFO), &e);
    if body.len() == 0 {
        return Ok(None);
    }
    let sep = vec![':', ':'];
    assert(sep@ =~= seq![':', ':']);
    let parts = split_seq(&body, &sep);
    let ghost pv = parts@.map_values(|v: Vec<char>| v@);
    let mut current: Option<TypeStruct> = None;
    let mut i: usize = 0;
    while i < parts.len()
        invariant
            i <= parts@.len(),
            pv == parts@.map_values(|v: Vec<char>| v@),
            body@ == header_body(line@),
            body@.len() > 0,
            pv == split_seq_spec(body@, seq![':', ':']),
            nodes_of_parts(pv.subrange(0, i as int)) is Some,
            i == 0 ==> current is None,
            i > 0 ==> opt_view(current) == nodes_of_parts(pv.subrange(0, i as int)),
        decreases parts@.len() - i,
    {
        assert(pv.subrange(0, i + 1).drop_last() =~= pv.subrange(0, i as int));
        let w = words_of(&parts[i]);
        let ghost wv = w@.map_values(|v: Vec<char>| v@);
        if w.len() == 0 {
            assert(wv.len() == 0);
            assert(pv[i as int] == parts@[i as int]@);
            assert(body@ == header_body(line@));
            proof {
                lemma_nodes_prefix_none(pv, i as int);
            }
            return Err(SidecarError::MalformedHeader);
        }
        let ty = type_from_chars(&w[0]);
        let last = w.len() - 1;
        assert(wv.last() == w@[last as int]@);
        let node = TypeNode { ty, name: string_of(w[last].as_slice()), args: Vec::new() };
        assert(strings_view(node.args@) =~= Seq::<Seq<char>>::empty());
        assert(node@ == node_of_words(wv));
        current = match current {
            None => {
                let t = TypeStruct { ty: node.ty, name: node.name, args: node.args, parents: Vec::new() };
                assert(t@ =~= seq![node_of_words(wv)]);
                proof {
                    lemma_nodes_of_parts_len(pv.subrange(0, i as int));
                }
                assert(nodes_of_parts(pv.subrange(0, i as int))->0 =~= Seq::<NodeView>::empty());
                Some(t)
            },
            Some(c) => Some(c.child(&node)),
        };
        i += 1;
    }
    assert(pv.subrange(0, i as int) =~= pv);
    proof {
        crate::text::lemma_split_seq_len(body@, sep@);
    }
    Ok(current)
}

pub proof fn lemma_nodes_prefix_none(pv: Seq<Seq<char>>, i: int)
    requires
        0 <= i < pv.len(),
        words_spec(pv[i]).len() == 0,
    ensures
        nodes_of_parts(pv) is None,
    decreases pv.len(),
{
    if i == pv.len() - 1 {
    } else {
        lemma_nodes_prefix_none(pv.drop_last(), i);
    }
}

/// `s` with each occurrence of `p` replaced by `r`; `s` itself when `p` is empty.
fn replace_nonempty(s: &Vec<char>, p: &Vec<char>, r: &Vec<char>) -> (out: Vec<char>)
    ensures
        out@ == replace_spec(s@, p@, r@),
{
    if p.len() == 0 {
        slice(s, 0, s.len())
    } else {
        replace(s, p, r)
    }
}

} // verus!

verus! {

/// One sidecar record: the path it is filed under (none for a whole-file
/// comment) and its comment lines.
#[derive(Debug, Clone)]
pub struct SidecarEntry {
    pub ty: Option<TypeStruct>,
    pub header: String,
    pub comments: Vec<String>,
}

/// The records of one file section; the file is none for the section that
/// applies to every file. A list of sections read from a sidecar has one
/// section per file (`unique_files`).
#[derive(Debug, Clone)]
pub struct FileSection {
    pub file: Option<String>,
    pub entries: Vec<SidecarEntry>,
}

pub ghost struct EntryView {
    pub ty: Option<Seq<NodeView>>,
    pub header: Seq<char>,
    pub comments: Seq<Seq<char>>,
}

pub ghost struct SectionView {
    pub file: Option<Seq<char>>,
    pub entries: Seq<EntryView>,
}

impl View for SidecarEntry {
    type V = EntryView;

    open spec fn view(&self) -> EntryView {
        EntryView { ty: opt_view(self.ty), header: self.header@, comments: strings_view(self.comments@) }
    }
}

pub open spec fn opt_str(o: Option<String>) -> Option<Seq<char>> {
    match o {
        Some(s) => Some(s@),
        None => None,
    }
}

pub open spec fn entries_view(v: Seq<SidecarEntry>) -> Seq<EntryView> {
    v.map_values(|e: SidecarEntry| e@)
}

impl View for FileSection {
    type V = SectionView;

    open spec fn view(&self) -> SectionView {
        SectionView { file: opt_str(self.file), entries: entries_view(self.entries@) }
    }
}

pub open spec fn sections_view(v: Seq<FileSection>) -> Seq<SectionView> {
    v.map_values(|s: FileSection| s@)
}

/// The state of the sidecar reader: whether a file header was met, the
/// current section's file and finished records, the open record's path and
/// lines, and the sections read so far.
pub ghost struct ReadState {
    pub started: bool,
    pub file: Option<Seq<char>>,
    pub infos: Seq<EntryView>,
    pub ty: Option<Seq<NodeView>>,
    pub hdr: Seq<char>,
    pub comments: Seq<Seq<char>>,
    pub ret: Seq<SectionView>,
}

/// The file a section header names: `Some(None)` for `*`, nothing when the
/// line is no section header.
pub open spec fn line_file_spec(line: Seq<char>) -> Option<Option<Seq<char>>> {
    if occurs_at(line, 0, FILE@) {
        let name = replace_spec(line.skip(FILE@.len() as int), END_INFO@, Seq::empty());
        if name == seq!['*'] {
            Some(None)
        } else {
            Some(Some(name))
        }
    } else {
        None
    }
}

/// The index of the section of `file` in `ret`, or -1.
pub open spec fn section_index(ret: Seq<SectionView>, file: Option<Seq<char>>) -> int
    decreases ret.len(),
{
    if ret.len() == 0 {
        -1
    } else if section_index(ret.drop_last(), file) >= 0 {
        section_index(ret.drop_last(), file)
    } else if ret.last().file == file {
        ret.len() - 1
    } else {
        -1
    }
}

/// `ret` with the records `infos` of `file` added: a later section of a file
/// adds its records after those of the earlier one.
pub open spec fn insert_section(ret: Seq<SectionView>, file: Option<Seq<char>>, infos: Seq<EntryView>) -> Seq<
    SectionView,
> {
    let i = section_index(ret, file);
    if i >= 0 {
        ret.update(i, SectionView { file, entries: ret[i].entries + infos })
    } else {
        ret.push(SectionView { file, entries: infos })
    }
}

pub open spec fn erase_if(ty: Option<Seq<NodeView>>, ig: bool) -> Option<Seq<NodeView>> {
    if ig {
        erase_opt(ty)
    } else {
        ty
    }
}

/// The records so far with the open record closed, when it has lines.
pub open spec fn flush(st: ReadState) -> Seq<EntryView> {
    if st.comments.len() > 0 {
        st.infos.push(EntryView { ty: st.ty, header: st.hdr, comments: st.comments })
    } else {
        st.infos
    }
}

/// The reader's state after one more line: a file header closes the open
/// record and section and opens a new section; a record header closes the
/// open record and opens one (a module comment record starts with the `//!`
/// marker); any other line is a line of the open record.
pub open spec fn read_step(st: ReadState, line: Seq<char>, ig: bool) -> Result<ReadState, SidecarError> {
    if !st.started {
        match line_file_spec(line) {
            Some(f) => Ok(
                ReadState {
                    started: true,
                    file: f,
                    infos: Seq::empty(),
                    ty: None,
                    hdr: Seq::empty(),
                    comments: Seq::empty(),
                    ret: st.ret,
                },
            ),
            None => Err(SidecarError::UnrecognizedLine),
        }
    } else {
        match line_file_spec(line) {
            Some(new_file) => {
                let infos = flush(st);
                Ok(
                    ReadState {
                        started: true,
                        file: new_file,
                        infos: Seq::empty(),
                        ty: None,
                        hdr: Seq::empty(),
                        comments: Seq::empty(),
                        ret: if infos.len() > 0 {
                            insert_section(st.ret, st.file, infos)
                        } else {
                            st.ret
                        },
                    },
                )
            },
            None => if occurs_at(line, 0, FILE_COMMENT@) || occurs_at(line, 0, MOD_COMMENT@) {
                match parse_mod_line_spec(line) {
                    Err(e) => Err(e),
                    Ok(ty) => Ok(
                        ReadState {
                            started: true,
                            file: st.file,
                            infos: flush(st),
                            ty: erase_if(ty, ig),
                            hdr: line,
                            comments: if occurs_at(line, 0, FILE_COMMENT@) && ty is Some {
                                seq![seq!['/', '/', '!']]
                            } else {
                                Seq::empty()
                            },
                            ret: st.ret,
                        },
                    ),
                }
            } else {
                Ok(ReadState { comments: st.comments.push(line), ..st })
            },
        }
    }
}

pub open spec fn initial_read_state() -> ReadState {
    ReadState {
        started: false,
        file: None,
        infos: Seq::empty(),
        ty: None,
        hdr: Seq::empty(),
        comments: Seq::empty(),
        ret: Seq::empty(),
    }
}

/// The reader's state after the first `k` lines.
pub open spec fn read_lines(lines: Seq<Seq<char>>, k: int, ig: bool) -> Result<ReadState, SidecarError>
    decreases k,
{
    if k <= 0 || k > lines.len() {
        Ok(initial_read_state())
    } else {
        match read_lines(lines, k - 1, ig) {
            Err(e) => Err(e),
            Ok(st) => read_step(st, lines[k - 1], ig),
        }
    }
}

/// The sections once the open record and section are closed.
pub open spec fn read_finish(st: ReadState) -> Seq<SectionView> {
    if !st.started {
        st.ret
    } else {
        let infos = flush(st);
        if infos.len() > 0 {
            insert_section(st.ret, st.file, infos)
        } else {
            st.ret
        }
    }
}

/// The records of a whole sidecar text, given as its lines.
pub open spec fn parse_cmts_spec(lines: Seq<Seq<char>>, ig: bool) -> Result<Seq<SectionView>, SidecarError> {
    match read_lines(lines, lines.len() as int, ig) {
        Err(e) => Err(e),
        Ok(st) => Ok(read_finish(st)),
    }
}

} // verus!

verus! {

/// The sidecar reader's state.
pub struct ReaderState {
    pub started: bool,
    pub file: Option<String>,
    pub infos: Vec<SidecarEntry>,
    pub ty: Option<TypeStruct>,
    pub hdr: String,
    pub comments: Vec<String>,
    pub ret: Vec<FileSection>,
}

impl View for ReaderState {
    type V = ReadState;

    open spec fn view(&self) -> ReadState {
        ReadState {
            started: self.started,
            file: opt_str(self.file),
            infos: entries_view(self.infos@),
            ty: opt_view(self.ty),
            hdr: self.hdr@,
            comments: strings_view(self.comments@),
            ret: sections_view(self.ret@),
        }
    }
}

/// The file a section header names, when the line is one.
pub fn line_file(line: &Vec<char>) -> (r: Option<Option<String>>)
    ensures
        line_file_spec(line@) == match r {
            Some(Some(s)) => Some(Some(s@)),
            Some(None) => Some(None),
            None => None::<Option<Seq<char>>>,
        },
{
    let file = chars_of(FILE);
    if !crate::text::starts_with(line, &file) {
        return None;
    }
    let rest = slice(line, file.len(), line.len());
    assert(rest@ =~= line@.skip(FILE@.len() as int));
    let e: Vec<char> = Vec::new();
    assert(e@ =~= Seq::<char>::empty());
    let name = replace_nonempty(&rest, &chars_of(END_INFO), &e);
    let star = vec!['*'];
    assert(star@ =~= seq!['*']);
    if seq_eq(&name, &star) {
        Some(None)
    } else {
        Some(Some(string_of(name.as_slice())))
    }
}

fn same_file(a: &Option<String>, b: &Option<String>) -> (r: bool)
    ensures
        r == (opt_str(*a) == opt_str(*b)),
{
    match (a, b) {
        (Some(x), Some(y)) => *x == *y,
        (None, None) => true,
        _ => false,
    }
}

/// Adds the records `infos` of `file`: after those of its earlier section, if any.
pub fn insert_section_into(ret: &mut Vec<FileSection>, file: Option<String>, infos: Vec<SidecarEntry>)
    ensures
        sections_view(final(ret)@) == insert_section(
            sections_view(old(ret)@),
            opt_str(file),
            entries_view(infos@),
        ),
{
    let ghost rv = sections_view(ret@);
    let mut i: usize = 0;
    while i < ret.len()
        invariant
            i <= ret@.len(),
            rv == sections_view(ret@),
            ret@ == old(ret)@,
            rv.len() == ret@.len(),
            section_index(rv.subrange(0, i as int), opt_str(file)) == -1,
        decreases ret@.len() - i,
    {
        assert(rv.subrange(0, i + 1).drop_last() =~= rv.subrange(0, i as int));
        assert(rv[i as int] == ret@[i as int]@);
        if same_file(&ret[i].file, &file) {
            assert(rv[i as int].file == opt_str(file));
            proof {
                lemma_section_index_prefix(rv, i as int, opt_str(file));
            }
            let mut sec = ret.remove(i);
            let ghost old_entries = entries_view(sec.entries@);
            assert(old_entries == rv[i as int].entries);
            let mut more = infos;
            let ghost added = entries_view(more@);
            sec.entries.append(&mut more);
            assert(entries_view(sec.entries@) =~= old_entries + added);
            let merged = FileSection { file, entries: sec.entries };
            ret.insert(i, merged);
            assert(sections_view(ret@) =~= rv.update(
                i as int,
                SectionView { file: opt_str(file), entries: rv[i as int].entries + added },
            ));
            return ;
        }
        i += 1;
    }
    proof {
        lemma_section_index_none(rv, opt_str(file));
    }
    assert(rv.subrange(0, i as int) =~= rv);
    ret.push(FileSection { file, entries: infos });
    assert(sections_view(ret@) =~= rv.push(
        SectionView { file: opt_str(file), entries: entries_view(infos@) },
    ));
}

pub proof fn lemma_section_index_prefix(rv: Seq<SectionView>, i: int, f: Option<Seq<char>>)
    requires
        0 <= i < rv.len(),
        section_index(rv.subrange(0, i), f) == -1,
        rv[i].file == f,
    ensures
        section_index(rv, f) == i,
    decreases rv.len(),
{
    if i == rv.len() - 1 {
        assert(rv.drop_last() =~= rv.subrange(0, i));
    } else {
        assert(rv.drop_last().subrange(0, i) =~= rv.subrange(0, i));
        lemma_section_index_prefix(rv.drop_last(), i, f);
    }
}

pub proof fn lemma_section_index_none(rv: Seq<SectionView>, f: Option<Seq<char>>)
    ensures
        section_index(rv.subrange(0, rv.len() as int), f) == section_index(rv, f),
{
    assert(rv.subrange(0, rv.len() as int) =~= rv);
}

fn erase_if_needed(ty: Option<TypeStruct>, ig: bool) -> (r: Option<TypeStruct>)
    ensures
        opt_view(r) == erase_if(opt_view(ty), ig),
{
    if ig {
        erase_macro_path(ty)
    } else {
        ty
    }
}

fn push_entry(infos: &mut Vec<SidecarEntry>, ty: Option<TypeStruct>, header: String, comments: Vec<String>)
    ensures
        entries_view(final(infos)@) == entries_view(old(infos)@).push(
            EntryView { ty: opt_view(ty), header: header@, comments: strings_view(comments@) },
        ),
{
    let ghost hv = header@;
    infos.push(SidecarEntry { ty, header, comments });
    assert(entries_view(final(infos)@) =~= entries_view(old(infos)@).push(
        EntryView { ty: opt_view(ty), header: hv, comments: strings_view(comments@) },
    ));
}

/// The reader's state after `line`.
pub fn read_line(st: ReaderState, line: &Vec<char>, ig: bool) -> (r: Result<ReaderState, SidecarError>)
    ensures
        read_step(st@, line@, ig) == match r {
            Ok(s) => Ok::<ReadState, SidecarError>(s@),
            Err(e) => Err(e),
        },
{
    let ghost sv = st@;
    let ReaderState { started, file, infos, ty, hdr, comments, ret } = st;
    if !started {
        return match line_file(line) {
            Some(f) => {
                let r = ReaderState {
                    started: true,
                    file: f,
                    infos: Vec::new(),
                    ty: None,
                    hdr: String::new(),
                    comments: Vec::new(),
                    ret,
                };
                assert(r@.infos =~= Seq::<EntryView>::empty());
                assert(r@.comments =~= Seq::<Seq<char>>::empty());
                Ok(r)
            },
            None => Err(SidecarError::UnrecognizedLine),
        };
    }
    let mut infos = infos;
    let mut ret = ret;
    let file_header = line_file(line);
    let is_file_comment = crate::text::starts_with(line, &chars_of(FILE_COMMENT));
    let is_record = is_file_comment || crate::text::starts_with(line, &chars_of(MOD_COMMENT));
    if file_header.is_none() && !is_record {
        let ghost oc = strings_view(comments@);
        let mut comments = comments;
        comments.push(string_of(line.as_slice()));
        assert(strings_view(comments@) =~= oc.push(line@));
        return Ok(ReaderState { started: true, file, infos, ty, hdr, comments, ret });
    }
    let nt = if file_header.is_none() {
        match parse_mod_line(line) {
            Ok(t) => t,
            Err(e) => {
                return Err(e);
            },
        }
    } else {
        None
    };
    if comments.len() > 0 {
        push_entry(&mut infos, ty, hdr, comments);
    }
    assert(entries_view(infos@) == flush(sv));
    match file_header {
        Some(new_file) => {
            if infos.len() > 0 {
                insert_section_into(&mut ret, file, infos);
            }
            let r = ReaderState {
                started: true,
                file: new_file,
                infos: Vec::new(),
                ty: None,
                hdr: String::new(),
                comments: Vec::new(),
                ret,
            };
            assert(r@.infos =~= Seq::<EntryView>::empty());
            assert(r@.comments =~= Seq::<Seq<char>>::empty());
            Ok(r)
        },
        None => {
            let mut new_comments: Vec<String> = Vec::new();
            if is_file_comment && nt.is_some() {
                let marker = vec!['/', '/', '!'];
                assert(marker@ =~= seq!['/', '/', '!']);
                new_comments.push(string_of(marker.as_slice()));
                assert(strings_view(new_comments@) =~= seq![seq!['/', '/', '!']]);
            } else {
                assert(strings_view(new_comments@) =~= Seq::<Seq<char>>::empty());
            }
            let nt = erase_if_needed(nt, ig);
            Ok(ReaderState {
                started: true,
                file,
                infos,
                ty: nt,
                hdr: string_of(line.as_slice()),
                comments: new_comments,
                ret,
            })
        },
    }
}

/// Reads a sidecar, given as its lines, into file sections of records.
pub fn parse_cmts(lines: &Vec<String>, ignore_macros: bool) -> (r: Result<Vec<FileSection>, SidecarError>)
    ensures
        parse_cmts_spec(strings_view(lines@), ignore_macros) == match r {
            Ok(v) => Ok::<Seq<SectionView>, SidecarError>(sections_view(v@)),
            Err(e) => Err(e),
        },
        r is Ok ==> unique_files(sections_view(r->Ok_0@)),
{
    proof {
        lemma_parse_unique(strings_view(lines@), ignore_macros);
    }
    let ghost lv = strings_view(lines@);
    let mut st = ReaderState {
        started: false,
        file: None,
        infos: Vec::new(),
        ty: None,
        hdr: String::new(),
        comments: Vec::new(),
        ret: Vec::new(),
    };
    assert(entries_view(st.infos@) =~= Seq::<EntryView>::empty());
    assert(strings_view(st.comments@) =~= Seq::<Seq<char>>::empty());
    assert(sections_view(st.ret@) =~= Seq::<SectionView>::empty());
    assert(st@ =~= initial_read_state());
    let mut k: usize = 0;
    while k < lines.len()
        invariant
            k <= lines@.len(),
            lv == strings_view(lines@),
            read_lines(lv, k as int, ignore_macros) == Ok::<ReadState, SidecarError>(st@),
        decreases lines@.len() - k,
    {
        let line = chars_of(lines[k].as_str());
        st = match read_line(st, &line, ignore_macros) {
            Ok(s) => s,
            Err(e) => {
                proof {
                    lemma_read_lines_err(lv, k as int + 1, ignore_macros);
                }
                return Err(e);
            },
        };
        k += 1;
    }
    let ghost last = st@;
    let ReaderState { started, file, infos, ty, hdr, comments, ret } = st;
    let mut ret = ret;
    if started {
        let mut infos = infos;
        if comments.len() > 0 {
            push_entry(&mut infos, ty, hdr, comments);
        }
        assert(entries_view(infos@) == flush(last));
        if infos.len() > 0 {
            insert_section_into(&mut ret, file, infos);
        }
    }
    Ok(ret)
}

pub proof fn lemma_read_lines_err(lines: Seq<Seq<char>>, k: int, ig: bool)
    requires
        0 < k <= lines.len(),
        read_lines(lines, k, ig) is Err,
    ensures
        read_lines(lines, lines.len() as int, ig) == read_lines(lines, k, ig),
    decreases lines.len() - k,
{
    if k < lines.len() {
        lemma_read_lines_err(lines, k + 1, ig);
    }
}

} // verus!

verus! {

/// `n` levels of four-space indentation.
pub open spec fn indent_spec(n: nat) -> Seq<char>
    decreases n,
{
    if n == 0 {
        Seq::empty()
    } else {
        indent_spec((n - 1) as nat) + seq![' ', ' ', ' ', ' ']
    }
}

/// The index of the first character of `s` at or after `i` that is neither a
/// space nor a tab, or the length of `s`.
pub open spec fn first_non_blank(s: Seq<char>, i: int) -> int
    decreases s.len() - i,
{
    if i >= s.len() {
        s.len() as int
    } else if s[i] != ' ' && s[i] != '\t' {
        i
    } else {
        first_non_blank(s, i + 1)
    }
}

/// The indentation of a line, in whole levels of four characters; none for a
/// blank line.
pub open spec fn indent_from_spec(s: Seq<char>) -> Seq<char> {
    let i = first_non_blank(s, 0);
    if i < s.len() {
        indent_spec((i / 4) as nat)
    } else {
        Seq::empty()
    }
}

pub fn gen_indent(indent: usize) -> (r: Vec<char>)
    ensures
        r@ == indent_spec(indent as nat),
{
    let mut r: Vec<char> = Vec::new();
    let mut k: usize = 0;
    while k < indent
        invariant
            k <= indent,
            r@ == indent_spec(k as nat),
        decreases indent - k,
    {
        r.push(' ');
        r.push(' ');
        r.push(' ');
        r.push(' ');
        k += 1;
        assert(r@ =~= indent_spec(k as nat));
    }
    r
}

pub fn gen_indent_from(from: &Vec<char>) -> (r: Vec<char>)
    ensures
        r@ == indent_from_spec(from@),
{
    let mut i: usize = 0;
    while i < from.len() && (from[i] == ' ' || from[i] == '\t')
        invariant
            i <= from@.len(),
            first_non_blank(from@, 0) == first_non_blank(from@, i as int),
        decreases from@.len() - i,
    {
        i += 1;
    }
    if i < from.len() {
        gen_indent(i / 4)
    } else {
        Vec::new()
    }
}

/// Whether a comment line is blank.
pub open spec fn is_blank(c: Seq<char>) -> bool {
    crate::text::trim_spec(c).len() == 0
}

/// The source line that puts back one comment line: the indentation, the
/// marker (`//!` for a file or module comment, `///` otherwise), then a space
/// and the text unless the text is blank.
pub open spec fn comment_line_spec(indent: Seq<char>, is_file_comment: bool, comment: Seq<char>) -> Seq<
    char,
> {
    indent + (if is_file_comment {
        seq!['/', '/', '!']
    } else {
        seq!['/', '/', '/']
    }) + if is_blank(comment) {
        Seq::empty()
    } else {
        seq![' '] + comment
    }
}

/// Inserts one comment line at `position`, indented as the line it goes
/// above or, for a file comment, by `indent` levels.
pub fn regenerate_comment(
    is_file_comment: bool,
    position: usize,
    indent: usize,
    comment: &Vec<char>,
    original_content: &mut Vec<Vec<char>>,
)
    requires
        position <= old(original_content)@.len(),
    ensures
        final(original_content)@.len() == old(original_content)@.len() + 1,
        final(original_content)@.map_values(|v: Vec<char>| v@) == old(original_content)@.map_values(
            |v: Vec<char>| v@,
        ).insert(
            position as int,
            comment_line_spec(
                if is_file_comment {
                    indent_spec(indent as nat)
                } else if position < old(original_content)@.len() {
                    indent_from_spec(old(original_content)@[position as int]@)
                } else {
                    Seq::empty()
                },
                is_file_comment,
                comment@,
            ),
        ),
{
    let read_indent = if is_file_comment {
        gen_indent(indent)
    } else if position < original_content.len() {
        gen_indent_from(&original_content[position])
    } else {
        Vec::new()
    };
    let mut line = read_indent;
    if is_file_comment {
        line.push('/');
        line.push('/');
        line.push('!');
    } else {
        line.push('/');
        line.push('/');
        line.push('/');
    }
    let blank = crate::text::trim(comment).len() == 0;
    if !blank {
        line.push(' ');
        crate::text::push_all(&mut line, comment);
    }
    let ghost before = original_content@.map_values(|v: Vec<char>| v@);
    let ghost lv = line@;
    original_content.insert(position, line);
    assert(lv =~= comment_line_spec(
        if is_file_comment {
            indent_spec(indent as nat)
        } else if position < old(original_content)@.len() {
            indent_from_spec(old(original_content)@[position as int]@)
        } else {
            Seq::empty()
        },
        is_file_comment,
        comment@,
    ));
    assert(original_content@.map_values(|v: Vec<char>| v@) =~= before.insert(position as int, lv));
}

} // verus!

verus! {

/// Whether record `e` is filed under the declaration at path `to_find`.
pub open spec fn entry_matches(e: EntryView, to_find: Option<Seq<NodeView>>) -> bool {
    e.ty is Some && to_find is Some && types_match(e.ty->0, to_find->0)
}

fn entry_matches_at(elements: &Vec<SidecarEntry>, pos: usize, target: &TypeStruct) -> (r: bool)
    requires
        pos < elements@.len(),
    ensures
        r == entry_matches(elements@[pos as int]@, Some(target@)),
{
    match &elements[pos].ty {
        Some(a) => type_matches(a, target),
        None => false,
    }
}

/// Whether a line, once trimmed at its start, opens with `#` (an attribute).
fn is_attribute_line(l: &Vec<char>) -> (r: bool)
    ensures
        r == {
            let t = crate::text::trim_start_spec(l@);
            t.len() > 0 && t[0] == '#'
        },
{
    let t = crate::text::trim_start(l);
    t.len() > 0 && t[0] == '#'
}

/// Whether the lines right above `pos` are doc-comment lines that an
/// ignore-next directive keeps in place.
pub fn ignored_block_above(content: &Vec<Vec<char>>, pos: usize) -> (r: bool)
    requires
        pos <= content@.len(),
    ensures
        r == block_above(lines_view(content@), pos as int),
{
    let ghost cv = lines_view(content@);
    let tri = vec!['/', '/', '/'];
    let inner = vec!['/', '/', '!'];
    let mut k = pos;
    assert(tri@ =~= seq!['/', '/', '/'] && inner@ =~= seq!['/', '/', '!']);
    while k > 0 && (crate::text::starts_with(&crate::text::trim(&content[k - 1]), &tri)
        || crate::text::starts_with(&crate::text::trim(&content[k - 1]), &inner))
        invariant
            k <= pos <= content@.len(),
            cv == lines_view(content@),
            tri@ == seq!['/', '/', '/'],
            inner@ == seq!['/', '/', '!'],
            doc_up(cv, pos as int) == doc_up(cv, k as int),
        decreases k,
    {
        assert(cv[k - 1] == content@[k - 1]@);
        k -= 1;
    }
    proof {
        if k > 0 {
            assert(cv[k - 1] == content@[k - 1]@);
        }
    }
    k < pos && k > 0 && seq_eq(&crate::text::trim(&content[k - 1]), &chars_of(IGNORE_NEXT_COMMENT))
}

/// Looks for the first record filed under `to_find`; when there is one, puts
/// its comment back above source line `line` (moved up over attributes, or
/// below the line for a file comment), shifted by the `decal` lines inserted
/// so far, and returns its index.
pub fn get_corresponding_type(
    elements: &Vec<SidecarEntry>,
    to_find: &Option<TypeStruct>,
    line: usize,
    decal: &mut usize,
    original_content: &mut Vec<Vec<char>>,
    ignore_macros: bool,
) -> (r: Option<usize>)
    requires
        *old(decal) <= old(original_content)@.len(),
    ensures
        ({
            let g = gct_spec(
                entries_view(elements@),
                opt_view(*to_find),
                line,
                *old(decal),
                lines_view(old(original_content)@),
                ignore_macros,
            );
            &&& (r is Some <==> g.0 is Some)
            &&& (r is Some ==> g.0->0 == r->0 as int)
            &&& *final(decal) == g.1
            &&& lines_view(final(original_content)@) == g.2
        }),
        *final(decal) <= final(original_content)@.len(),
        *final(decal) >= *old(decal),
        r is Some ==> r->0 < elements@.len() && entry_matches(elements@[r->0 as int]@, opt_view(*to_find)),
        r is Some ==> forall|j: int| 0 <= j < r->0 ==> !entry_matches(#[trigger] elements@[j]@, opt_view(*to_find)),
        r is None ==> forall|j: int| 0 <= j < elements@.len() ==> !entry_matches(#[trigger] elements@[j]@, opt_view(*to_find)),
{
    reveal(gct_spec);
    let ghost els = entries_view(elements@);
    let ghost c0 = lines_view(original_content@);
    let ghost d0: usize = *decal;
    let target = match to_find {
        Some(t) => t,
        None => {
            return None;
        },
    };
    let mut pos: usize = 0;
    while pos < elements.len() && !entry_matches_at(elements, pos, target)
        invariant
            pos <= elements@.len(),
            els == entries_view(elements@),
            opt_view(*to_find) == Some(target@),
            first_match(els, opt_view(*to_find), 0) == first_match(els, opt_view(*to_find), pos as int),
            forall|j: int| 0 <= j < pos ==> !entry_matches(#[trigger] elements@[j]@, opt_view(*to_find)),
        decreases elements@.len() - pos,
    {
        assert(els[pos as int] == elements@[pos as int]@);
        pos += 1;
    }
    if pos >= elements.len() {
        return None;
    }
    assert(els[pos as int] == elements@[pos as int]@);
    let entry = &elements[pos];
    let ghost e = els[pos as int];
    let marker = vec!['/', '/', '!'];
    assert(marker@ =~= seq!['/', '/', '!']);
    let file_comment = entry.comments.len() > 0 && crate::text::starts_with(
        &chars_of(entry.comments[0].as_str()),
        &marker,
    );
    assert(entry.comments@.len() > 0 ==> e.comments[0] == entry.comments@[0]@);
    assert(file_comment == (e.comments.len() > 0 && occurs_at(e.comments[0], 0, seq!['/', '/', '!'])));
    let mut ln = line;
    if file_comment {
        if ln < usize::MAX {
            ln += 1;
        }
    } else {
        while ln > 0 && ln - 1 < original_content.len() - *decal && is_attribute_line(
            &original_content[ln - 1 + *decal],
        )
            invariant
                *decal <= original_content@.len(),
                *decal == d0,
                c0 == lines_view(original_content@),
                attr_up(c0, line, d0) == attr_up(c0, ln, d0),
            decreases ln,
        {
            assert(c0[ln - 1 + *decal] == original_content@[ln - 1 + *decal]@);
            ln -= 1;
        }
        proof {
            if ln > 0 && ln - 1 < original_content@.len() - *decal {
                assert(c0[ln - 1 + *decal] == original_content@[ln - 1 + *decal]@);
            }
        }
    }
    let ghost line1: usize = ln;
    if !file_comment && ln <= original_content.len() - *decal && *decal < usize::MAX
        && ignored_block_above(original_content, ln + *decal) {
        let p = ln + *decal;
        let mut stop = if p < original_content.len() {
            gen_indent_from(&original_content[p])
        } else {
            Vec::new()
        };
        assert(p < c0.len() ==> c0[p as int] == original_content@[p as int]@);
        crate::text::push_all(&mut stop, &chars_of(IGNORE_NEXT_COMMENT_STOP));
        let ghost sv = stop@;
        original_content.insert(p, stop);
        assert(lines_view(original_content@) =~= c0.insert(p as int, sv));
        let _n = original_content.len();
        *decal += 1;
    }
    let ghost c1 = lines_view(original_content@);
    let ghost d1: usize = *decal;
    let depth = match &entry.ty {
        Some(t) => t.get_depth(ignore_macros),
        None => 0,
    };
    let indent = if depth < usize::MAX {
        depth + 1
    } else {
        depth
    };
    let mut k: usize = if file_comment {
        1
    } else {
        0
    };
    let ghost k0 = k as int;
    while k < entry.comments.len()
        invariant
            *decal <= original_content@.len(),
            *old(decal) <= *decal,
            k0 <= k,
            e.comments == strings_view(entry.comments@),
            insert_comments(c1, d1, line1, e.comments, k0, file_comment, indent) == insert_comments(
                lines_view(original_content@),
                *decal,
                line1,
                e.comments,
                k as int,
                file_comment,
                indent,
            ),
            ln == line1,
        decreases entry.comments@.len() - k,
    {
        if ln <= original_content.len() - *decal && *decal < usize::MAX {
            let c = chars_of(entry.comments[k].as_str());
            assert(c@ == e.comments[k as int]);
            let ghost cv = lines_view(original_content@);
            regenerate_comment(file_comment, ln + *decal, indent, &c, original_content);
            assert(lines_view(original_content@) == cv.insert(
                ln + *decal,
                comment_line_spec(indent_for(cv, file_comment, ln + *decal, indent), file_comment, c@),
            ));
            let _n = original_content.len();
            *decal += 1;
        }
        k += 1;
    }
    Some(pos)
}

/// Whether a declaration at event `it` keeps the doc comment it already has.
pub fn check_if_regen(it: usize, events: &Vec<EventInfo>, ignore_doc_commented: bool) -> (r: bool)
    requires
        it < events@.len(),
    ensures
        r == (ignore_doc_commented && it > 0 && (events@[it - 1].event is Comment
            || events@[it - 1].event is FileComment)),
{
    ignore_doc_commented && it > 0 && match &events[it - 1].event {
        EventType::Comment(_) | EventType::FileComment(_) => true,
        _ => false,
    }
}

} // verus!

verus! {

/// Whether a bare word in scope `cur` is looked up when regenerating: inside
/// a struct, an enum or a module.
pub open spec fn regen_scope(cur: Option<Seq<NodeView>>) -> bool {
    match cur {
        Some(c) => c.len() > 0 && (c.last().ty == Type::Struct || c.last().ty == Type::Enum
            || c.last().ty == Type::Mod),
        None => false,
    }
}

/// The path looked up in the sidecar at event `k`, if any.
pub open spec fn candidate_at(ev: Seq<(nat, EventView)>, k: int, ig: bool) -> Option<Seq<NodeView>> {
    match ev[k].1 {
        EventView::Type(t) => if t.len() > 0 && (t.last().ty != Type::Unknown || regen_scope(
            walk_state(ev, k).0,
        )) {
            erase_if(scope_in(walk_state(ev, k).0, Some(t)), ig)
        } else {
            None
        },
        _ => None,
    }
}

/// A looked-up path cut at its nearest macro-invocation ancestor, for records
/// that name an item written inside a macro call without that call.
pub open spec fn cut_candidate(c: Option<Seq<NodeView>>) -> Option<Seq<NodeView>> {
    match c {
        Some(p) => Some(after_last_macro(p.drop_last()).push(p.last())),
        None => None,
    }
}


/// The content lines as character sequences.
pub open spec fn lines_view(c: Seq<Vec<char>>) -> Seq<Seq<char>> {
    c.map_values(|v: Vec<char>| v@)
}

/// The first record at or after `k` filed under `tf`, or the number of records.
pub open spec fn first_match(els: Seq<EntryView>, tf: Option<Seq<NodeView>>, k: int) -> int
    decreases els.len() - k,
{
    if k < 0 || k >= els.len() {
        els.len() as int
    } else if entry_matches(els[k], tf) {
        k
    } else {
        first_match(els, tf, k + 1)
    }
}

/// Whether a line, trimmed at its start, opens with `#`.
pub open spec fn is_attr_spec(l: Seq<char>) -> bool {
    let t = crate::text::trim_start_spec(l);
    t.len() > 0 && t[0] == '#'
}

/// Source line `line` moved up over the attribute lines right above it
/// (`decal` lines were inserted before it).
pub open spec fn attr_up(c: Seq<Seq<char>>, line: usize, decal: usize) -> usize
    decreases line,
{
    if line > 0 && decal <= c.len() && line - 1 < c.len() - decal && is_attr_spec(
        c[line - 1 + decal],
    ) {
        attr_up(c, (line - 1) as usize, decal)
    } else {
        line
    }
}

/// Whether a trimmed line opens a doc comment with `///` or `//!`.
pub open spec fn is_doc_line(l: Seq<char>) -> bool {
    occurs_at(crate::text::trim_spec(l), 0, seq!['/', '/', '/']) || occurs_at(
        crate::text::trim_spec(l),
        0,
        seq!['/', '/', '!'],
    )
}

/// The first of the doc-comment lines right above line `k`.
pub open spec fn doc_up(c: Seq<Seq<char>>, k: int) -> int
    decreases k,
{
    if k > 0 && k <= c.len() && is_doc_line(c[k - 1]) {
        doc_up(c, k - 1)
    } else {
        k
    }
}

/// Whether doc-comment lines right above `pos` follow an ignore-next directive.
pub open spec fn block_above(c: Seq<Seq<char>>, pos: int) -> bool {
    let k = doc_up(c, pos);
    k < pos && k > 0 && crate::text::trim_spec(c[k - 1]) == IGNORE_NEXT_COMMENT@
}

/// The indentation of a comment line put at `pos`.
pub open spec fn indent_for(c: Seq<Seq<char>>, file_comment: bool, pos: int, indent: usize) -> Seq<char> {
    if file_comment {
        indent_spec(indent as nat)
    } else if pos < c.len() {
        indent_from_spec(c[pos])
    } else {
        Seq::empty()
    }
}

/// The content once comment lines `k..` are put at `line` (shifted by
/// `decal`), each below the one before; and the new shift.
pub open spec fn insert_comments(
    c: Seq<Seq<char>>,
    decal: usize,
    line: usize,
    comments: Seq<Seq<char>>,
    k: int,
    file_comment: bool,
    indent: usize,
) -> (Seq<Seq<char>>, usize)
    decreases comments.len() - k,
{
    if k < 0 || k >= comments.len() {
        (c, decal)
    } else {
        let (c2, d2) = if decal <= c.len() && line <= c.len() - decal && decal < usize::MAX {
            let pos = line + decal;
            (
                c.insert(pos, comment_line_spec(indent_for(c, file_comment, pos, indent), file_comment, comments[k])),
                (decal + 1) as usize,
            )
        } else {
            (c, decal)
        };
        insert_comments(c2, d2, line, comments, k + 1, file_comment, indent)
    }
}

/// What looking up `tf` does: the index of the record found, the new shift,
/// and the content with that record's comment put back above source line
/// `line` (over its attributes, below a stop directive when an ignored doc
/// comment is right above), or below it for a module comment.
#[verifier::opaque]
pub open spec fn gct_spec(
    els: Seq<EntryView>,
    tf: Option<Seq<NodeView>>,
    line: usize,
    decal: usize,
    c: Seq<Seq<char>>,
    ig: bool,
) -> (Option<int>, usize, Seq<Seq<char>>) {
    let pos = first_match(els, tf, 0);
    if tf is None || pos >= els.len() {
        (None, decal, c)
    } else {
        let e = els[pos];
        let fc = e.comments.len() > 0 && occurs_at(e.comments[0], 0, seq!['/', '/', '!']);
        let line1 = if fc {
            if line < usize::MAX {
                (line + 1) as usize
            } else {
                line
            }
        } else {
            attr_up(c, line, decal)
        };
        let (c1, d1) = if !fc && decal <= c.len() && line1 <= c.len() - decal && block_above(
            c,
            line1 + decal,
        ) && decal < usize::MAX {
            let p = line1 + decal;
            (
                c.insert(
                    p,
                    (if p < c.len() {
                        indent_from_spec(c[p])
                    } else {
                        Seq::empty()
                    }) + IGNORE_NEXT_COMMENT_STOP@,
                ),
                (decal + 1) as usize,
            )
        } else {
            (c, decal)
        };
        let depth = match e.ty {
            Some(t) => crate::types::depth_spec(t, ig),
            None => 0,
        };
        let indent = if depth < usize::MAX {
            (depth + 1) as usize
        } else {
            depth as usize
        };
        let (c2, d2) = insert_comments(c1, d1, line1, e.comments, if fc {
            1
        } else {
            0
        }, fc, indent);
        (Some(pos), d2, c2)
    }
}


/// The first record at or after `k` that has no path (a whole-file comment),
/// or the number of records.
pub open spec fn first_none(els: Seq<EntryView>, k: int) -> int
    decreases els.len() - k,
{
    if k < 0 || k >= els.len() {
        els.len() as int
    } else if els[k].ty is None {
        k
    } else {
        first_none(els, k + 1)
    }
}

/// The end of the run of lines from `k` on that open with `/` (a header of
/// plain comments).
pub open spec fn lead_slash(c: Seq<Seq<char>>, k: int) -> int
    decreases c.len() - k,
{
    if 0 <= k < c.len() && c[k].len() > 0 && c[k][0] == '/' {
        lead_slash(c, k + 1)
    } else {
        k
    }
}

/// A whole-file comment line as put back: `//!`, then a space and the text
/// unless the text is blank.
pub open spec fn file_line(comment: Seq<char>) -> Seq<char> {
    seq!['/', '/', '!'] + if crate::text::trim_spec(comment).len() > 0 {
        seq![' '] + comment
    } else {
        Seq::empty()
    }
}

/// The content once whole-file comment lines `k..` are put at `it`, one
/// below the other; where the next would go; and how many went in.
pub open spec fn file_lines(
    c: Seq<Seq<char>>,
    it: int,
    comments: Seq<Seq<char>>,
    k: int,
    decal: usize,
) -> (Seq<Seq<char>>, int, usize)
    decreases comments.len() - k,
{
    if k < 0 || k >= comments.len() || it < 0 || it > c.len() {
        (c, it, decal)
    } else {
        file_lines(c.insert(it, file_line(comments[k])), it + 1, comments, k + 1, (decal + 1) as usize)
    }
}

/// What putting back the whole-file comment does: when the file has a line
/// past its plain-comment header and the blank line after it, the comment
/// lines go in there, then a blank line, and the record is used; else nothing
/// changes and the record stays. Also how many lines went in.
pub open spec fn prologue(c: Seq<Seq<char>>, els: Seq<EntryView>) -> (Seq<Seq<char>>, usize, Seq<EntryView>) {
    let position = first_none(els, 0);
    if position >= els.len() {
        (c, 0, els)
    } else {
        let it0 = lead_slash(c, 0);
        let fits = it0 == 0 || it0 < c.len();
        let it1 = if it0 > 0 && it0 < c.len() {
            it0 + 1
        } else {
            it0
        };
        if !(fits && it1 < c.len()) {
            (c, 0, els)
        } else {
            let (c1, it2, d1) = file_lines(c, it1, els[position].comments, 0, 0);
            let (c2, d2) = if it2 <= c1.len() {
                (c1.insert(it2, Seq::empty()), (d1 + 1) as usize)
            } else {
                (c1, d1)
            };
            (c2, d2, els.remove(position))
        }
    }
}

/// The content and the records left after the walk over events `k..`, with
/// `cur` the current scope and `wait` the declaration waiting for its brace:
/// at each declaration (and each bare word inside a struct, an enum or a
/// module) its path is looked up, then, when nothing is found, the same path
/// cut at its nearest macro invocation; the record found is put back and
/// removed. A declaration right below a doc comment is passed over when
/// `idc`.
pub open spec fn regen_walk(
    ev: Seq<(nat, EventView)>,
    k: int,
    c: Seq<Seq<char>>,
    decal: usize,
    els: Seq<EntryView>,
    cur: Option<Seq<NodeView>>,
    wait: Option<Seq<NodeView>>,
    ig: bool,
    idc: bool,
) -> (Seq<Seq<char>>, Seq<EntryView>)
    decreases ev.len() - k,
{
    if k < 0 || k >= ev.len() {
        (c, els)
    } else {
        match ev[k].1 {
            EventView::Type(t) => {
                let wait2 = if t.len() > 0 && t.last().ty != Type::Unknown {
                    Some(t)
                } else {
                    wait
                };
                let look = t.len() > 0 && (t.last().ty != Type::Unknown || regen_scope(cur));
                let keep = idc && k > 0 && (ev[k - 1].1 is Comment || ev[k - 1].1 is FileComment);
                if look && !keep {
                    let cand = erase_if(scope_in(cur, Some(t)), ig);
                    let g1 = gct_spec(els, cand, ev[k].0 as usize, decal, c, ig);
                    let g2 = if g1.0 is None && cand is Some && cut_candidate(cand)->0.len()
                        != cand->0.len() {
                        gct_spec(els, cut_candidate(cand), ev[k].0 as usize, g1.1, g1.2, ig)
                    } else {
                        g1
                    };
                    let els2 = if g2.0 is Some && 0 <= g2.0->0 < els.len() {
                        els.remove(g2.0->0)
                    } else {
                        els
                    };
                    regen_walk(ev, k + 1, g2.2, g2.1, els2, cur, wait2, ig, idc)
                } else {
                    regen_walk(ev, k + 1, c, decal, els, cur, wait2, ig, idc)
                }
            },
            EventView::InScope => regen_walk(ev, k + 1, c, decal, els, scope_in(cur, wait), None, ig, idc),
            EventView::OutScope => regen_walk(ev, k + 1, c, decal, els, scope_out(cur), None, ig, idc),
            _ => regen_walk(ev, k + 1, c, decal, els, cur, wait, ig, idc),
        }
    }
}

/// What regenerating a file's lines does: the whole-file comment first; then
/// the text is scanned afresh, so that line numbers count the lines put in,
/// and walked.
pub open spec fn regen_spec(
    c: Seq<Seq<char>>,
    els: Seq<EntryView>,
    ig: bool,
    idc: bool,
) -> (Seq<Seq<char>>, Seq<EntryView>) {
    let (c0, d0, e0) = prologue(c, els);
    let sc = scan_spec(crate::text::join_spec(c0, seq!['\n']));
    regen_walk(sc.events, 0, sc.lines, 0, e0, None, None, ig, idc)
}

/// The events that the walk of `regen_spec` reads: those of the text once
/// the whole-file comment is in.
pub open spec fn regen_events(c: Seq<Seq<char>>, els: Seq<EntryView>) -> Seq<(nat, EventView)> {
    scan_spec(crate::text::join_spec(prologue(c, els).0, seq!['\n'])).events
}

/// Whether record `x` is filed under none of the paths looked up in `ev`.
pub open spec fn never_looked_up(x: EntryView, ev: Seq<(nat, EventView)>, ig: bool) -> bool {
    forall|k: int|
        0 <= k < ev.len() ==> !entry_matches(x, #[trigger] candidate_at(ev, k, ig))
            && !entry_matches(x, cut_candidate(candidate_at(ev, k, ig)))
}

pub proof fn lemma_remove_keeps<T>(s: Seq<T>, l: int, x: T)
    requires
        0 <= l < s.len(),
        s.contains(x),
        s[l] != x,
    ensures
        s.remove(l).contains(x),
{
    let i = choose|i: int| 0 <= i < s.len() && s[i] == x;
    if i < l {
        assert(s.remove(l)[i] == x);
    } else {
        assert(s.remove(l)[i - 1] == x);
    }
}

fn remove_entry(elements: &mut Vec<SidecarEntry>, l: usize)
    requires
        l < old(elements)@.len(),
    ensures
        entries_view(final(elements)@) == entries_view(old(elements)@).remove(l as int),
{
    elements.remove(l);
    assert(entries_view(final(elements)@) =~= entries_view(old(elements)@).remove(l as int));
}

/// Puts back the whole-file comment, if the records hold one, below the
/// plain-comment header of `content`, and removes its record; returns how
/// many lines went in.
pub fn put_file_comment(content: &mut Vec<Vec<char>>, elements: &mut Vec<SidecarEntry>) -> (decal: usize)
    ensures
        prologue(lines_view(old(content)@), entries_view(old(elements)@)) == (
            lines_view(final(content)@),
            decal,
            entries_view(final(elements)@),
        ),
        decal <= final(content)@.len(),
{
    let ghost els = entries_view(elements@);
    let ghost c0 = lines_view(content@);
    let mut decal: usize = 0;
    let mut position: usize = 0;
    while position < elements.len() && elements[position].ty.is_some()
        invariant
            position <= elements@.len(),
            els == entries_view(elements@),
            first_none(els, 0) == first_none(els, position as int),
        decreases elements@.len() - position,
    {
        assert(els[position as int] == elements@[position as int]@);
        position += 1;
    }
    if position >= elements.len() {
        return 0;
    }
    assert(els[position as int] == elements@[position as int]@);
    let mut it: usize = 0;
    while it < content.len() && content[it].len() > 0 && content[it][0] == '/'
        invariant
            it <= content@.len(),
            c0 == lines_view(content@),
            lead_slash(c0, 0) == lead_slash(c0, it as int),
        decreases content@.len() - it,
    {
        assert(c0[it as int] == content@[it as int]@);
        it += 1;
    }
    proof {
        if it < content@.len() {
            assert(c0[it as int] == content@[it as int]@);
        }
    }
    let mut fits = true;
    if it > 0 {
        if it < content.len() {
            it += 1;
        } else {
            fits = false;
        }
    }
    let ghost it1 = it as int;
    let ghost comments = els[position as int].comments;
    if !(fits && it < content.len()) {
        return 0;
    }
    {
        let mut k: usize = 0;
        while k < elements[position].comments.len()
            invariant
                it <= content@.len(),
                decal <= content@.len(),
                position < elements@.len(),
                els == entries_view(elements@),
                comments == strings_view(elements@[position as int].comments@),
                file_lines(c0, it1, comments, 0, 0) == file_lines(
                    lines_view(content@),
                    it as int,
                    comments,
                    k as int,
                    decal,
                ),
            decreases elements@[position as int].comments@.len() - k,
        {
            let c = chars_of(elements[position].comments[k].as_str());
            assert(c@ == comments[k as int]);
            let mut l: Vec<char> = vec!['/', '/', '!'];
            if crate::text::trim(&c).len() > 0 {
                l.push(' ');
                crate::text::push_all(&mut l, &c);
            }
            assert(l@ =~= file_line(c@));
            let ghost cv = lines_view(content@);
            content.insert(it, l);
            assert(lines_view(content@) =~= cv.insert(it as int, file_line(c@)));
            let _n = content.len();
            decal += 1;
            it += 1;
            k += 1;
        }
    }
    let ghost c1 = lines_view(content@);
    if it <= content.len() {
        content.insert(it, Vec::new());
        assert(lines_view(content@) =~= c1.insert(it as int, Seq::<char>::empty()));
        let _n = content.len();
        decal += 1;
    }
    let ghost before = entries_view(elements@);
    elements.remove(position);
    assert(entries_view(elements@) =~= before.remove(position as int));
    decal
}

/// Puts back into the lines `content` the whole-file comment, then, scanning
/// the text afresh so that line numbers count the lines put in, the records
/// of `elements` whose declarations it holds, removing each record used, as
/// `regen_spec` says. A record filed under a path that is never looked up
/// stays.
#[verifier::rlimit(50)]
pub fn do_regenerate(
    content: &mut Vec<Vec<char>>,
    elements: &mut Vec<SidecarEntry>,
    ignore_macros: bool,
    ignore_doc_commented: bool,
)
    ensures
        regen_spec(
            lines_view(old(content)@),
            entries_view(old(elements)@),
            ignore_macros,
            ignore_doc_commented,
        ) == (lines_view(final(content)@), entries_view(final(elements)@)),
        forall|x: EntryView|
            entries_view(old(elements)@).contains(x) && x.ty is Some && never_looked_up(
                x,
                regen_events(lines_view(old(content)@), entries_view(old(elements)@)),
                ignore_macros,
            ) ==> #[trigger] entries_view(final(elements)@).contains(x),
        entries_view(final(elements)@).len() <= entries_view(old(elements)@).len(),
{
    let ghost e0 = entries_view(elements@);
    let ghost first = first_none(e0, 0);
    let ghost c_in = lines_view(content@);
    put_file_comment(content, elements);
    proof {
        lemma_first_none_bounds(e0, 0);
        assert forall|x: EntryView| e0.contains(x) && x.ty is Some implies #[trigger] entries_view(
            elements@,
        ).contains(x) by {
            if first < e0.len() {
                lemma_first_none_is_none(e0, 0);
                lemma_remove_keeps(e0, first, x);
            }
        }
    }
    let nl = vec!['\n'];
    assert(nl@ =~= seq!['\n']);
    let text = string_of(crate::text::join_chars(content, &nl).as_slice());
    let pr = build_event_list(text.as_str());
    *content = strings_chars(&pr.original_content);
    let events = &pr.event_list;
    let ghost ev = events_view(events@);
    assert(ev == regen_events(c_in, e0));
    let mut decal: usize = 0;
    let ghost start = (lines_view(content@), decal, entries_view(elements@));
    let mut current: Option<TypeStruct> = None;
    let mut waiting_type: Option<TypeStruct> = None;
    let mut it: usize = 0;
    while it < events.len()
        invariant
            it <= events@.len(),
            ev == events_view(events@),
            ev.len() == events@.len(),
            decal <= content@.len(),
            opt_view(current) == walk_state(ev, it as int).0,
            opt_view(waiting_type) == walk_state(ev, it as int).1,
            entries_view(elements@).len() <= e0.len(),
            e0 == entries_view(old(elements)@),
            forall|x: EntryView|
                e0.contains(x) && x.ty is Some && never_looked_up(x, ev, ignore_macros)
                    ==> #[trigger] entries_view(elements@).contains(x),
            regen_walk(ev, 0, start.0, start.1, start.2, None, None, ignore_macros, ignore_doc_commented)
                == regen_walk(
                ev,
                it as int,
                lines_view(content@),
                decal,
                entries_view(elements@),
                opt_view(current),
                opt_view(waiting_type),
                ignore_macros,
                ignore_doc_commented,
            ),
            start.0 == scan_spec(crate::text::join_spec(prologue(c_in, e0).0, seq!['\n'])).lines,
            start.1 == 0,
            start.2 == prologue(c_in, e0).2,
            ev == scan_spec(crate::text::join_spec(prologue(c_in, e0).0, seq!['\n'])).events,
            c_in == lines_view(old(content)@),
        decreases events@.len() - it,
    {
        assert(ev[it as int] == events@[it as int]@);
        proof {
            if it > 0 {
                assert(ev[it - 1] == events@[it - 1]@);
            }
        }
        match &events[it].event {
            EventType::Type(t) => {
                let look = if t.ty != Type::Unknown {
                    waiting_type = Some(t.duplicate());
                    true
                } else {
                    match &current {
                        Some(c) => c.ty == Type::Struct || c.ty == Type::Enum || c.ty == Type::Mod,
                        None => false,
                    }
                };
                if look && !check_if_regen(it, events, ignore_doc_commented) {
                    let tmp = erase_if_needed(add_to_type_scope(&current, &Some(t.duplicate())), ignore_macros);
                    assert(opt_view(tmp) == candidate_at(ev, it as int, ignore_macros));
                    let line = events[it].line;
                    let mut found = get_corresponding_type(
                        elements,
                        &tmp,
                        line,
                        &mut decal,
                        content,
                        ignore_macros,
                    );
                    if found.is_none() {
                        if let Some(t0) = &tmp {
                            let mut cut = t0.duplicate();
                            cut_at_nearest_macro(&mut cut);
                            if cut.parents.len() != t0.parents.len() {
                                let cut = Some(cut);
                                assert(opt_view(cut) == cut_candidate(candidate_at(ev, it as int, ignore_macros)));
                                found = get_corresponding_type(
                                    elements,
                                    &cut,
                                    line,
                                    &mut decal,
                                    content,
                                    ignore_macros,
                                );
                            }
                        }
                    }
                    if let Some(l) = found {
                        let ghost ev_el = entries_view(elements@);
                        proof {
                            assert forall|x: EntryView|
                                e0.contains(x) && x.ty is Some && never_looked_up(x, ev, ignore_macros)
                                implies #[trigger] ev_el.remove(l as int).contains(x) by {
                                assert(ev_el[l as int] == elements@[l as int]@);
                                assert(!entry_matches(x, candidate_at(ev, it as int, ignore_macros)));
                                assert(!entry_matches(x, cut_candidate(candidate_at(ev, it as int, ignore_macros))));
                                lemma_remove_keeps(ev_el, l as int, x);
                            }
                        }
                        remove_entry(elements, l);
                    }
                }
            },
            EventType::InScope => {
                current = add_to_type_scope(&current, &waiting_type);
                waiting_type = None;
            },
            EventType::OutScope => {
                current = type_out_scope(&current);
                waiting_type = None;
            },
            _ => {},
        }
        it += 1;
    }
}

pub proof fn lemma_first_none_bounds(els: Seq<EntryView>, k: int)
    requires
        0 <= k <= els.len(),
    ensures
        k <= first_none(els, k) <= els.len(),
    decreases els.len() - k,
{
    if k < els.len() && els[k].ty is Some {
        lemma_first_none_bounds(els, k + 1);
    }
}

pub proof fn lemma_first_none_is_none(els: Seq<EntryView>, k: int)
    requires
        0 <= k,
        first_none(els, k) < els.len(),
    ensures
        els[first_none(els, k)].ty is None,
    decreases els.len() - k,
{
    if k < els.len() && els[k].ty is Some {
        lemma_first_none_is_none(els, k + 1);
    }
}

} // verus!

verus! {

/// The first section at or after `k` of file `f`, or the number of sections.
pub open spec fn first_section(sv: Seq<SectionView>, f: Option<Seq<char>>, k: int) -> int
    decreases sv.len() - k,
{
    if k < 0 || k >= sv.len() {
        sv.len() as int
    } else if sv[k].file == f {
        k
    } else {
        first_section(sv, f, k + 1)
    }
}

/// Section `i` with its records set to `entries`.
pub open spec fn with_entries(sv: Seq<SectionView>, i: int, entries: Seq<EntryView>) -> Seq<SectionView> {
    sv.update(i, SectionView { file: sv[i].file, entries })
}

/// The file's lines once the records of its own section are put back (its
/// lines as they are when it has none), and the sections after that pass.
pub open spec fn own_pass(
    path: Seq<char>,
    content: Seq<char>,
    sv: Seq<SectionView>,
    ig: bool,
    idc: bool,
) -> (Seq<Seq<char>>, Seq<SectionView>) {
    let ex = first_section(sv, Some(path), 0);
    let c0 = split_spec(content, '\n');
    if 0 <= ex < sv.len() {
        let r = regen_spec(c0, sv[ex].entries, ig, idc);
        (r.0, with_entries(sv, ex, r.1))
    } else {
        (c0, sv)
    }
}

/// What regenerating the file at `path` with text `content` gives: nothing
/// when no section applies; else its new text, once the records of its own
/// section and then, on the text that pass made, those of the section for
/// every file are put back; and the sections without the records used.
pub open spec fn regen_file_spec(
    path: Seq<char>,
    content: Seq<char>,
    sv: Seq<SectionView>,
    ig: bool,
    idc: bool,
) -> (Option<Seq<char>>, Seq<SectionView>) {
    let ex = first_section(sv, Some(path), 0);
    let wi = first_section(sv, None, 0);
    if ex >= sv.len() && wi >= sv.len() {
        (None, sv)
    } else {
        let (c1, sv1) = own_pass(path, content, sv, ig, idc);
        let (c2, sv2) = if 0 <= wi < sv.len() {
            let r = regen_spec(c1, sv1[wi].entries, ig, idc);
            (r.0, with_entries(sv1, wi, r.1))
        } else {
            (c1, sv1)
        };
        (Some(crate::text::join_spec(c2, seq!['\n'])), sv2)
    }
}

/// The index of the section of `file`, if any.
fn find_section(infos: &Vec<FileSection>, file: &Option<String>) -> (r: Option<usize>)
    ensures
        r is Some ==> r->0 < infos@.len() && opt_str(infos@[r->0 as int].file) == opt_str(*file),
        r is None ==> forall|i: int| 0 <= i < infos@.len() ==> opt_str(#[trigger] infos@[i].file) != opt_str(*file),
        r is Some ==> r->0 as int == first_section(sections_view(infos@), opt_str(*file), 0),
        r is None ==> first_section(sections_view(infos@), opt_str(*file), 0) == infos@.len(),
{
    let ghost sv = sections_view(infos@);
    let mut i: usize = 0;
    while i < infos.len()
        invariant
            i <= infos@.len(),
            sv == sections_view(infos@),
            first_section(sv, opt_str(*file), 0) == first_section(sv, opt_str(*file), i as int),
            forall|j: int| 0 <= j < i ==> opt_str(#[trigger] infos@[j].file) != opt_str(*file),
        decreases infos@.len() - i,
    {
        assert(sv[i as int] == infos@[i as int]@);
        if same_file(&infos[i].file, file) {
            return Some(i);
        }
        i += 1;
    }
    None
}

fn regenerate_section(
    lines: &mut Vec<Vec<char>>,
    infos: &mut Vec<FileSection>,
    i: usize,
    ignore_macros: bool,
    ignore_doc_commented: bool,
)
    requires
        i < old(infos)@.len(),
    ensures
        ({
            let r = regen_spec(
                lines_view(old(lines)@),
                entries_view(old(infos)@[i as int].entries@),
                ignore_macros,
                ignore_doc_commented,
            );
            &&& lines_view(final(lines)@) == r.0
            &&& sections_view(final(infos)@) == with_entries(sections_view(old(infos)@), i as int, r.1)
        }),
        final(infos)@.len() == old(infos)@.len(),
        forall|j: int| 0 <= j < old(infos)@.len() ==> opt_str(#[trigger] final(infos)@[j].file) == opt_str(old(infos)@[j].file),
        forall|j: int| 0 <= j < old(infos)@.len() && j != i ==> #[trigger] final(infos)@[j]@ == old(infos)@[j]@,
        forall|x: EntryView|
            entries_view(old(infos)@[i as int].entries@).contains(x) && x.ty is Some && never_looked_up(
                x,
                regen_events(lines_view(old(lines)@), entries_view(old(infos)@[i as int].entries@)),
                ignore_macros,
            ) ==> #[trigger] entries_view(final(infos)@[i as int].entries@).contains(x),
{
    let ghost sv0 = sections_view(infos@);
    let mut sec = infos.remove(i);
    do_regenerate(lines, &mut sec.entries, ignore_macros, ignore_doc_commented);
    infos.insert(i, sec);
    assert(sections_view(infos@) =~= with_entries(sv0, i as int, entries_view(infos@[i as int].entries@)));
    assert forall|j: int| 0 <= j < old(infos)@.len() && j != i implies #[trigger] infos@[j]@ == old(infos)@[j]@ by {
        if j < i {
            assert(infos@[j] == old(infos)@[j]);
        } else {
            assert(infos@[j] == old(infos)@[j]);
        }
    }
}

/// Puts back into the file at `path`, whose text is `content`, the records
/// of its own section and then those of the section for every file, removing
/// the records used; its new text, or nothing when no section applies.
pub fn regenerate_comments(
    path: &str,
    content: &str,
    infos: &mut Vec<FileSection>,
    ignore_macros: bool,
    ignore_doc_commented: bool,
) -> (r: Option<String>)
    ensures
        r is None <==> forall|i: int| 0 <= i < old(infos)@.len() ==> (#[trigger] opt_str(
            old(infos)@[i].file,
        ) != Some(path@) && opt_str(old(infos)@[i].file) != None::<Seq<char>>),
        r is None ==> final(infos)@ == old(infos)@,
        final(infos)@.len() == old(infos)@.len(),
        forall|i: int| 0 <= i < old(infos)@.len() ==> opt_str(#[trigger] final(infos)@[i].file) == opt_str(old(infos)@[i].file),
        regen_file_spec(path@, content@, sections_view(old(infos)@), ignore_macros, ignore_doc_commented)
            == (
            match r {
                Some(t) => Some(t@),
                None => None::<Seq<char>>,
            },
            sections_view(final(infos)@),
        ),
{
    let own = Some(String::from_str(path));
    let exact = find_section(infos, &own);
    let wild = find_section(infos, &None);
    if exact.is_none() && wild.is_none() {
        return None;
    }
    let ghost sv = sections_view(infos@);
    let mut lines = split_char(&chars_of(content), '\n');
    assert(lines_view(lines@) == split_spec(content@, '\n'));
    assert(exact is Some ==> exact->0 < sv.len());
    if let Some(i) = exact {
        regenerate_section(&mut lines, infos, i, ignore_macros, ignore_doc_commented);
    }
    if let Some(i) = wild {
        regenerate_section(&mut lines, infos, i, ignore_macros, ignore_doc_commented);
    }
    let nl = vec!['\n'];
    assert(nl@ =~= seq!['\n']);
    Some(string_of(crate::text::join_chars(&lines, &nl).as_slice()))
}

/// The lines of a record as the sidecar holds them: without the `//!`
/// marker that the reader put in front of a module comment.
pub open spec fn record_body(e: EntryView) -> Seq<Seq<char>> {
    if e.ty is Some && occurs_at(e.header, 0, FILE_COMMENT@) && e.comments.len() > 0 {
        e.comments.skip(1)
    } else {
        e.comments
    }
}

/// A record as written back: its header as it was read (a bare file-comment
/// header for lines that had none), then its lines.
pub open spec fn record_text(e: EntryView) -> Seq<char> {
    (if e.header.len() > 0 {
        e.header
    } else {
        FILE_COMMENT@ + END_INFO@
    }) + seq!['\n'] + if record_body(e).len() > 0 {
        crate::text::join_spec(record_body(e), seq!['\n']) + seq!['\n']
    } else {
        Seq::empty()
    }
}

/// The records of a list, one after the other.
pub open spec fn entries_text(es: Seq<EntryView>) -> Seq<char>
    decreases es.len(),
{
    if es.len() == 0 {
        Seq::empty()
    } else {
        entries_text(es.drop_last()) + record_text(es.last())
    }
}

/// The sidecar text that holds the sections that still have records.
pub open spec fn sections_text(ss: Seq<SectionView>) -> Seq<char>
    decreases ss.len(),
{
    if ss.len() == 0 {
        Seq::empty()
    } else {
        sections_text(ss.drop_last()) + if ss.last().entries.len() == 0 {
            Seq::empty()
        } else {
            FILE@ + match ss.last().file {
                Some(f) => f,
                None => "*"@,
            } + END_INFO@ + seq!['\n'] + entries_text(ss.last().entries)
        }
    }
}

/// Whether some section still has records.
pub open spec fn any_left(ss: Seq<SectionView>) -> bool {
    exists|i: int| 0 <= i < ss.len() && #[trigger] ss[i].entries.len() > 0
}

/// A record as written back to the sidecar.
fn record_chars(e: &SidecarEntry) -> (r: Vec<char>)
    ensures
        r@ == record_text(e@),
{
    let header = chars_of(e.header.as_str());
    let mut out = if header.len() > 0 {
        chars_of(e.header.as_str())
    } else {
        let mut h = chars_of(FILE_COMMENT);
        crate::text::push_str(&mut h, END_INFO);
        h
    };
    out.push('\n');
    let marked = e.ty.is_some() && crate::text::starts_with(&header, &chars_of(FILE_COMMENT))
        && e.comments.len() > 0;
    let first: usize = if marked {
        1
    } else {
        0
    };
    let ghost body = record_body(e@);
    assert(body =~= strings_view(e.comments@).skip(first as int));
    if first < e.comments.len() {
        let mut k = first;
        let ghost base = out@;
        while k < e.comments.len()
            invariant
                first <= k <= e.comments@.len(),
                body =~= strings_view(e.comments@).skip(first as int),
                body.len() > 0,
                out@ == base + crate::text::join_spec(body.subrange(0, (k - first) as int), seq!['\n']) + if k
                    > first {
                    seq!['\n']
                } else {
                    Seq::<char>::empty()
                },
            decreases e.comments@.len() - k,
        {
            let ghost before = body.subrange(0, (k - first) as int);
            assert(body.subrange(0, (k + 1 - first) as int).drop_last() =~= before);
            assert(body[(k - first) as int] == e.comments@[k as int]@);
            if k > first {
                assert(crate::text::join_spec(body.subrange(0, (k + 1 - first) as int), seq!['\n']) == crate::text::join_spec(before, seq!['\n']) + seq!['\n'] + e.comments@[k as int]@);
            } else {
                assert(crate::text::join_spec(body.subrange(0, 1), seq!['\n']) == e.comments@[k as int]@);
            }
            crate::text::push_str(&mut out, e.comments[k].as_str());
            out.push('\n');
            k += 1;
            assert(out@ =~= base + crate::text::join_spec(body.subrange(0, (k - first) as int), seq!['\n']) + seq!['\n']);
        }
        assert(body.subrange(0, (k - first) as int) =~= body);
    }
    assert(out@ =~= record_text(e@));
    out
}

/// The residual sidecar: the records that were not put back, or nothing when
/// none is left.
pub fn save_remainings(infos: &Vec<FileSection>) -> (r: Option<String>)
    ensures
        r is None <==> !any_left(sections_view(infos@)),
        r is Some ==> r->0@ == sections_text(sections_view(infos@)),
{
    let ghost sv = sections_view(infos@);
    let mut out: Vec<char> = Vec::new();
    let mut left = false;
    let mut i: usize = 0;
    while i < infos.len()
        invariant
            i <= infos@.len(),
            sv == sections_view(infos@),
            sv.len() == infos@.len(),
            out@ == sections_text(sv.subrange(0, i as int)),
            left <==> exists|j: int| 0 <= j < i && #[trigger] sv[j].entries.len() > 0,
        decreases infos@.len() - i,
    {
        assert(sv.subrange(0, i + 1).drop_last() =~= sv.subrange(0, i as int));
        assert(sv[i as int] == infos@[i as int]@);
        let sec = &infos[i];
        let ghost ev = entries_view(sec.entries@);
        if sec.entries.len() > 0 {
            left = true;
            let name = match &sec.file {
                Some(f) => crate::utils::write_file(f.as_str()),
                None => crate::utils::write_file("*"),
            };
            crate::text::push_all(&mut out, &chars_of(name.as_str()));
            out.push('\n');
            let mut k: usize = 0;
            let ghost base = out@;
            assert(entries_text(ev.subrange(0, 0)) =~= Seq::<char>::empty());
            while k < sec.entries.len()
                invariant
                    k <= sec.entries@.len(),
                    ev == entries_view(sec.entries@),
                    ev.len() == sec.entries@.len(),
                    out@ == base + entries_text(ev.subrange(0, k as int)),
                decreases sec.entries@.len() - k,
            {
                assert(ev.subrange(0, k + 1).drop_last() =~= ev.subrange(0, k as int));
                assert(ev[k as int] == sec.entries@[k as int]@);
                let e = &sec.entries[k];
                let rec = record_chars(e);
                crate::text::push_all(&mut out, &rec);
                k += 1;
                assert(out@ =~= base + entries_text(ev.subrange(0, k as int)));
            }
            assert(ev.subrange(0, k as int) =~= ev);
        }
        i += 1;
        assert(out@ =~= sections_text(sv.subrange(0, i as int)));
    }
    assert(sv.subrange(0, i as int) =~= sv);
    if !left {
        return None;
    }
    Some(string_of(out.as_slice()))
}

} // verus!

verus! {

pub proof fn lemma_first_match_found(els: Seq<EntryView>, tf: Option<Seq<NodeView>>, k: int)
    requires
        0 <= k,
        first_match(els, tf, k) < els.len(),
    ensures
        entry_matches(els[first_match(els, tf, k)], tf),
        first_match(els, tf, k) >= 0,
    decreases els.len() - k,
{
    if k < els.len() && !entry_matches(els[k], tf) {
        lemma_first_match_found(els, tf, k + 1);
    }
}

/// A record found by a lookup is filed under the path looked up.
pub proof fn lemma_gct_found_matches(
    els: Seq<EntryView>,
    tf: Option<Seq<NodeView>>,
    line: usize,
    decal: usize,
    c: Seq<Seq<char>>,
    ig: bool,
)
    ensures
        gct_spec(els, tf, line, decal, c, ig).0 is Some ==> {
            let p = gct_spec(els, tf, line, decal, c, ig).0->0;
            0 <= p < els.len() && entry_matches(els[p], tf)
        },
{
    reveal(gct_spec);
    if tf is Some && first_match(els, tf, 0) < els.len() {
        lemma_first_match_found(els, tf, 0);
    }
}

/// The walk keeps every record whose path none of its lookups names.
pub proof fn lemma_walk_keeps(
    ev: Seq<(nat, EventView)>,
    k: int,
    c: Seq<Seq<char>>,
    decal: usize,
    els: Seq<EntryView>,
    ig: bool,
    idc: bool,
    x: EntryView,
)
    requires
        0 <= k <= ev.len(),
        els.contains(x),
        never_looked_up(x, ev, ig),
    ensures
        regen_walk(ev, k, c, decal, els, walk_state(ev, k).0, walk_state(ev, k).1, ig, idc).1.contains(x),
    decreases ev.len() - k,
{
    if k < ev.len() {
        let cur = walk_state(ev, k).0;
        let wait = walk_state(ev, k).1;
        assert(walk_state(ev, k + 1) == {
            let (cu, wa) = walk_state(ev, k);
            match ev[k].1 {
                EventView::Type(t) => if t.len() > 0 && t.last().ty != Type::Unknown {
                    (cu, Some(t))
                } else {
                    (cu, wa)
                },
                EventView::InScope => (scope_in(cu, wa), None),
                EventView::OutScope => (scope_out(cu), None),
                _ => (cu, wa),
            }
        });
        match ev[k].1 {
            EventView::Type(t) => {
                let look = t.len() > 0 && (t.last().ty != Type::Unknown || regen_scope(cur));
                let keep = idc && k > 0 && (ev[k - 1].1 is Comment || ev[k - 1].1 is FileComment);
                if look && !keep {
                    let cand = erase_if(scope_in(cur, Some(t)), ig);
                    assert(cand == candidate_at(ev, k, ig));
                    let g1 = gct_spec(els, cand, ev[k].0 as usize, decal, c, ig);
                    lemma_gct_found_matches(els, cand, ev[k].0 as usize, decal, c, ig);
                    lemma_gct_found_matches(els, cut_candidate(cand), ev[k].0 as usize, g1.1, g1.2, ig);
                    let g2 = if g1.0 is None && cand is Some && cut_candidate(cand)->0.len()
                        != cand->0.len() {
                        gct_spec(els, cut_candidate(cand), ev[k].0 as usize, g1.1, g1.2, ig)
                    } else {
                        g1
                    };
                    let els2 = if g2.0 is Some && 0 <= g2.0->0 < els.len() {
                        els.remove(g2.0->0)
                    } else {
                        els
                    };
                    assert(!entry_matches(x, candidate_at(ev, k, ig)));
                    assert(!entry_matches(x, cut_candidate(candidate_at(ev, k, ig))));
                    if g2.0 is Some && 0 <= g2.0->0 < els.len() {
                        lemma_remove_keeps(els, g2.0->0, x);
                    }
                    lemma_walk_keeps(ev, k + 1, g2.2, g2.1, els2, ig, idc, x);
                } else {
                    lemma_walk_keeps(ev, k + 1, c, decal, els, ig, idc, x);
                }
            },
            _ => {
                lemma_walk_keeps(ev, k + 1, c, decal, els, ig, idc, x);
            },
        }
    }
}

} // verus!

verus! {

/// Regenerating a file's lines keeps every record, other than the
/// whole-file one, whose path none of its lookups names.
pub proof fn lemma_regen_keeps(
    c: Seq<Seq<char>>,
    els: Seq<EntryView>,
    ig: bool,
    idc: bool,
    x: EntryView,
)
    requires
        els.contains(x),
        x.ty is Some,
        never_looked_up(x, regen_events(c, els), ig),
    ensures
        regen_spec(c, els, ig, idc).1.contains(x),
{
    let (c0, d0, e0) = prologue(c, els);
    let first = first_none(els, 0);
    lemma_first_none_bounds(els, 0);
    if first < els.len() {
        lemma_first_none_is_none(els, 0);
        lemma_remove_keeps(els, first, x);
    }
    assert(e0.contains(x));
    let sc = scan_spec(crate::text::join_spec(c0, seq!['\n']));
    assert(walk_state(sc.events, 0) == (None::<Seq<NodeView>>, None::<Seq<NodeView>>));
    lemma_walk_keeps(sc.events, 0, sc.lines, 0, e0, ig, idc, x);
}

pub proof fn lemma_first_section_found(sv: Seq<SectionView>, f: Option<Seq<char>>, k: int)
    requires
        0 <= k,
        first_section(sv, f, k) < sv.len(),
    ensures
        sv[first_section(sv, f, k)].file == f,
        first_section(sv, f, k) >= 0,
    decreases sv.len() - k,
{
    if k < sv.len() && sv[k].file != f {
        lemma_first_section_found(sv, f, k + 1);
    }
}

} // verus!

verus! {

/// Whether no two sections are of the same file.
pub open spec fn unique_files(sv: Seq<SectionView>) -> bool {
    forall|i: int, j: int| 0 <= i < j < sv.len() ==> sv[i].file != sv[j].file
}

pub proof fn lemma_section_index(ret: Seq<SectionView>, f: Option<Seq<char>>)
    ensures
        section_index(ret, f) == -1 ==> forall|j: int| 0 <= j < ret.len() ==> ret[j].file != f,
        section_index(ret, f) != -1 ==> 0 <= section_index(ret, f) < ret.len() && ret[section_index(
            ret,
            f,
        )].file == f,
    decreases ret.len(),
{
    if ret.len() > 0 {
        lemma_section_index(ret.drop_last(), f);
        assert forall|j: int| 0 <= j < ret.len() - 1 implies ret.drop_last()[j] == ret[j] by {}
    }
}

pub proof fn lemma_insert_unique(ret: Seq<SectionView>, f: Option<Seq<char>>, infos: Seq<EntryView>)
    requires
        unique_files(ret),
    ensures
        unique_files(insert_section(ret, f, infos)),
{
    lemma_section_index(ret, f);
    let r = insert_section(ret, f, infos);
    assert forall|i: int, j: int| 0 <= i < j < r.len() implies r[i].file != r[j].file by {
        if section_index(ret, f) == -1 && j == ret.len() {
            assert(ret[i].file != f);
        }
    }
}

pub proof fn lemma_read_unique(lines: Seq<Seq<char>>, k: int, ig: bool)
    ensures
        read_lines(lines, k, ig) is Ok ==> unique_files(read_lines(lines, k, ig)->Ok_0.ret),
    decreases k,
{
    if k <= 0 || k > lines.len() {
    } else {
        lemma_read_unique(lines, k - 1, ig);
        if let Ok(st) = read_lines(lines, k - 1, ig) {
            if st.started {
                if line_file_spec(lines[k - 1]) is Some && flush(st).len() > 0 {
                    lemma_insert_unique(st.ret, st.file, flush(st));
                }
            }
        }
    }
}

/// The sections read from a sidecar are of distinct files.
pub proof fn lemma_parse_unique(lines: Seq<Seq<char>>, ig: bool)
    ensures
        parse_cmts_spec(lines, ig) is Ok ==> unique_files(parse_cmts_spec(lines, ig)->Ok_0),
{
    lemma_read_unique(lines, lines.len() as int, ig);
    if let Ok(st) = read_lines(lines, lines.len() as int, ig) {
        if st.started && flush(st).len() > 0 {
            lemma_insert_unique(st.ret, st.file, flush(st));
        }
    }
}

/// A record without a path is never the answer to a lookup.
pub proof fn lemma_pathless_never_looked_up(x: EntryView, ev: Seq<(nat, EventView)>, ig: bool)
    requires
        x.ty is None,
    ensures
        never_looked_up(x, ev, ig),
{
}

/// Regenerating a file's lines keeps every whole-file record that the
/// whole-file step did not put in.
pub proof fn lemma_regen_keeps_pathless(
    c: Seq<Seq<char>>,
    els: Seq<EntryView>,
    ig: bool,
    idc: bool,
    x: EntryView,
)
    requires
        prologue(c, els).2.contains(x),
        x.ty is None,
    ensures
        regen_spec(c, els, ig, idc).1.contains(x),
{
    let (c0, d0, e0) = prologue(c, els);
    let sc = scan_spec(crate::text::join_spec(c0, seq!['\n']));
    lemma_pathless_never_looked_up(x, sc.events, ig);
    assert(walk_state(sc.events, 0) == (None::<Seq<NodeView>>, None::<Seq<NodeView>>));
    lemma_walk_keeps(sc.events, 0, sc.lines, 0, e0, ig, idc, x);
}

/// Whether `b` occurs in `a`.
pub open spec fn holds_text(a: Seq<char>, b: Seq<char>) -> bool {
    exists|p: int| 0 <= p && p + b.len() <= a.len() && #[trigger] a.subrange(p, p + b.len()) == b
}

pub proof fn lemma_holds_extend(a: Seq<char>, b: Seq<char>, pre: Seq<char>, post: Seq<char>)
    requires
        holds_text(a, b),
    ensures
        holds_text(pre + a + post, b),
{
    let p = choose|p: int| 0 <= p && p + b.len() <= a.len() && #[trigger] a.subrange(p, p + b.len()) == b;
    let q = pre.len() + p;
    assert((pre + a + post).subrange(q, q + b.len()) =~= a.subrange(p, p + b.len()));
}

pub proof fn lemma_entries_text_holds(es: Seq<EntryView>, k: int)
    requires
        0 <= k < es.len(),
    ensures
        holds_text(entries_text(es), record_text(es[k])),
    decreases es.len(),
{
    if k == es.len() - 1 {
        let a = entries_text(es.drop_last());
        let b = record_text(es[k]);
        assert((a + b).subrange(a.len() as int, (a.len() + b.len()) as int) =~= b);
    } else {
        lemma_entries_text_holds(es.drop_last(), k);
        assert(es.drop_last()[k] == es[k]);
        lemma_holds_extend(entries_text(es.drop_last()), record_text(es[k]), Seq::empty(), record_text(es.last()));
        assert(Seq::<char>::empty() + entries_text(es.drop_last()) + record_text(es.last()) =~= entries_text(es));
    }
}

/// Every record of every section ends up, as read, in the residual sidecar
/// text, records without a path included.
pub proof fn lemma_residual_holds_record(ss: Seq<SectionView>, i: int, k: int)
    requires
        0 <= i < ss.len(),
        0 <= k < ss[i].entries.len(),
    ensures
        holds_text(sections_text(ss), record_text(ss[i].entries[k])),
    decreases ss.len(),
{
    let r = record_text(ss[i].entries[k]);
    if i == ss.len() - 1 {
        let last = ss.last();
        lemma_entries_text_holds(last.entries, k);
        let head = FILE@ + match last.file {
            Some(f) => f,
            None => "*"@,
        } + END_INFO@ + seq!['\n'];
        lemma_holds_extend(entries_text(last.entries), r, sections_text(ss.drop_last()) + head, Seq::empty());
        assert(sections_text(ss.drop_last()) + head + entries_text(last.entries) + Seq::<char>::empty()
            =~= sections_text(ss));
    } else {
        lemma_residual_holds_record(ss.drop_last(), i, k);
        assert(ss.drop_last()[i] == ss[i]);
        let tail = sections_text(ss) .subrange(sections_text(ss.drop_last()).len() as int, sections_text(ss).len() as int);
        assert(sections_text(ss) =~= sections_text(ss.drop_last()) + tail);
        lemma_holds_extend(sections_text(ss.drop_last()), r, Seq::empty(), tail);
        assert(Seq::<char>::empty() + sections_text(ss.drop_last()) + tail =~= sections_text(ss));
    }
}

} // verus!
