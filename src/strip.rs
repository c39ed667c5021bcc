//! Stripping: doc comments are paired with the scope path of the item they
//! document, written out as sidecar records, and their lines removed.

use vstd::prelude::*;
use crate::consts::{END_INFO, FILE};
use crate::events::{build_event_list, lines_valid, no_doc_words, parse_view, scan_spec, ScanView};
use crate::lexer::clean_from;
use crate::lexer::IGNORE_NEXT_COMMENT_STOP;
use crate::text::{
    chars_of, occurs_at, push_all, seq_eq, starts_with, str_eq, string_of, join_chars, trim,
    trim_spec, words_spec, join_spec, replace, replace_spec, slice, split_char, split_spec, trim_start,
    trim_start_spec,
};
use crate::types::{
    empty_node, events_view, strings_chars, strings_view, EventInfo, EventType, EventView,
    NodeView, ParseResult, Type, TypeStruct,
};
use crate::utils::{file_comment_spec, record_spec, write_comment, write_file, write_file_comment};

verus! {

pub open spec fn opt_view(o: Option<TypeStruct>) -> Option<Seq<NodeView>> {
    match o {
        Some(t) => Some(t@),
        None => None,
    }
}

/// The scope entered at an opening brace: the waiting declaration (or an
/// anonymous node) placed under the current scope.
pub open spec fn scope_in(current: Option<Seq<NodeView>>, e: Option<Seq<NodeView>>) -> Option<
    Seq<NodeView>,
> {
    match (current, e) {
        (Some(c), Some(t)) => Some(c.push(t.last())),
        (Some(c), None) => Some(c.push(empty_node())),
        (None, Some(t)) => Some(t),
        (None, None) => None,
    }
}

/// The scope left at a closing brace: the parent of the current one.
pub open spec fn scope_out(current: Option<Seq<NodeView>>) -> Option<Seq<NodeView>> {
    match current {
        Some(c) => if c.len() > 1 {
            Some(c.drop_last())
        } else {
            None
        },
        None => None,
    }
}

pub fn add_to_type_scope(current: &Option<TypeStruct>, e: &Option<TypeStruct>) -> (r: Option<
    TypeStruct,
>)
    ensures
        opt_view(r) == scope_in(opt_view(*current), opt_view(*e)),
{
    match current {
        Some(c) => match e {
            Some(t) => Some(c.child(&t.node())),
            None => {
                let empty = TypeStruct::empty();
                Some(c.child(&empty.node()))
            },
        },
        None => match e {
            Some(t) => Some(t.duplicate()),
            None => None,
        },
    }
}

pub fn type_out_scope(current: &Option<TypeStruct>) -> (r: Option<TypeStruct>)
    ensures
        opt_view(r) == scope_out(opt_view(*current)),
{
    match current {
        Some(c) => c.parent(),
        None => None,
    }
}

} // verus!

verus! {

/// A doc-comment line with its markers and the one space after them removed.
pub open spec fn remove_prepend_spec(s: Seq<char>) -> Seq<char> {
    let a = replace_spec(s, seq!['/', '/', '/'], Seq::empty());
    let b = replace_spec(a, seq!['/', '*', '!'], Seq::empty());
    let c = replace_spec(b, seq!['/', '/', '!'], Seq::empty());
    let d = replace_spec(c, seq!['/', '*', '*'], Seq::empty());
    if d.len() > 0 && d[0] == ' ' {
        d.skip(1)
    } else {
        d
    }
}

pub open spec fn unformat_lines(v: Seq<Seq<char>>) -> Seq<Seq<char>> {
    v.map_values(|l: Seq<char>| remove_prepend_spec(trim_start_spec(l)))
}

/// The text of doc-comment lines: block-comment ends dropped, each line
/// trimmed at its start and stripped of its marker.
pub open spec fn unformat_spec(c: Seq<char>) -> Seq<char> {
    join_spec(
        unformat_lines(split_spec(replace_spec(c, seq!['*', '/'], Seq::empty()), '\n')),
        seq!['\n'],
    )
}

fn remove_prepend(s: &Vec<char>) -> (r: Vec<char>)
    ensures
        r@ == remove_prepend_spec(s@),
{
    let e: Vec<char> = Vec::new();
    let outer_line = vec!['/', '/', '/'];
    let inner_block = vec!['/', '*', '!'];
    let inner_line = vec!['/', '/', '!'];
    let outer_block = vec!['/', '*', '*'];
    assert(outer_line@ =~= seq!['/', '/', '/'] && inner_block@ =~= seq!['/', '*', '!']);
    assert(inner_line@ =~= seq!['/', '/', '!'] && outer_block@ =~= seq!['/', '*', '*']);
    assert(e@ =~= Seq::<char>::empty());
    let a = replace(s, &outer_line, &e);
    let b = replace(&a, &inner_block, &e);
    let c = replace(&b, &inner_line, &e);
    let d = replace(&c, &outer_block, &e);
    if d.len() > 0 && d[0] == ' ' {
        let r = slice(&d, 1, d.len());
        assert(r@ =~= d@.skip(1));
        r
    } else {
        d
    }
}

/// The text of doc-comment lines without their markers.
pub fn unformat_comment(c: &Vec<char>) -> (r: Vec<char>)
    ensures
        r@ == unformat_spec(c@),
{
    let e: Vec<char> = Vec::new();
    let close = vec!['*', '/'];
    assert(close@ =~= seq!['*', '/'] && e@ =~= Seq::<char>::empty());
    let cleaned = replace(c, &close, &e);
    let lines = split_char(&cleaned, '\n');
    let ghost lv = lines@.map_values(|v: Vec<char>| v@);
    let mut out: Vec<Vec<char>> = Vec::new();
    let mut i: usize = 0;
    while i < lines.len()
        invariant
            i <= lines@.len(),
            lv == lines@.map_values(|v: Vec<char>| v@),
            out@.len() == i,
            forall|j: int| 0 <= j < i ==> #[trigger] out@[j]@ == remove_prepend_spec(
                trim_start_spec(lv[j]),
            ),
        decreases lines@.len() - i,
    {
        out.push(remove_prepend(&trim_start(&lines[i])));
        i += 1;
    }
    assert(out@.map_values(|v: Vec<char>| v@) =~= unformat_lines(lv));
    let nl = vec!['\n'];
    assert(nl@ =~= seq!['\n']);
    join_chars(&out, &nl)
}

} // verus!

verus! {

/// Why a file cannot be stripped.
#[derive(Debug, Clone, Copy, PartialEq, Eq, Structural)]
pub enum StripError {
    /// A file or module doc comment stands inside an item that is not a module.
    FileCommentOutsideModule,
    /// A doc comment is followed by a brace or an inner doc comment, not by an item.
    CommentWithoutItem,
}

/// The text of a comment event.
pub open spec fn ev_text(e: EventView) -> Seq<char> {
    match e {
        EventView::Comment(s) => s,
        EventView::FileComment(s) => s,
        _ => Seq::empty(),
    }
}

/// Whether an event is an outer (`file == false`) or inner doc-comment line.
pub open spec fn is_doc_ev(e: EventView, file: bool) -> bool {
    if file {
        e is FileComment
    } else {
        e is Comment
    }
}

/// The end of the run of doc-comment lines of one kind that starts at `i`.
pub open spec fn run_end(ev: Seq<(nat, EventView)>, i: int, file: bool) -> int
    decreases ev.len() - i,
{
    if i < 0 || i >= ev.len() {
        ev.len() as int
    } else if is_doc_ev(ev[i].1, file) {
        run_end(ev, i + 1, file)
    } else {
        i
    }
}

/// The texts of events `a..b`, each followed by a line break.
pub open spec fn raw_run(ev: Seq<(nat, EventView)>, a: int, b: int) -> Seq<char>
    decreases b - a,
{
    if b <= a {
        Seq::empty()
    } else {
        raw_run(ev, a, b - 1) + ev_text(ev[b - 1].1) + seq!['\n']
    }
}

/// The unformatted texts of events `a..b`, each followed by a line break.
pub open spec fn unformat_run(ev: Seq<(nat, EventView)>, a: int, b: int) -> Seq<char>
    decreases b - a,
{
    if b <= a {
        Seq::empty()
    } else {
        unformat_run(ev, a, b - 1) + unformat_spec(ev_text(ev[b - 1].1)) + seq!['\n']
    }
}

/// Whether an inner doc comment may stand in scope `cur`: at top level or in a module.
pub open spec fn module_scope(cur: Option<Seq<NodeView>>) -> bool {
    match cur {
        Some(c) => c.len() > 0 && c.last().ty == Type::Mod,
        None => true,
    }
}

/// Whether bare words in scope `cur` are fields, variants or `use` aliases.
pub open spec fn variant_scope(cur: Option<Seq<NodeView>>) -> bool {
    match cur {
        Some(c) => c.len() > 0 && (c.last().ty == Type::Enum || c.last().ty == Type::Struct
            || c.last().ty == Type::Use),
        None => false,
    }
}

/// The item documented by a doc comment whose lines end at `j`: the index
/// where the walk goes on and the path the comment is filed under (none when
/// a bare word outside a struct, enum or `use` body follows). `pub` words are
/// passed over; a bare word inside such a body is a variant of it.
pub open spec fn item_after(ev: Seq<(nat, EventView)>, j: int, cur: Option<Seq<NodeView>>) -> Result<
    (int, Option<Seq<NodeView>>),
    StripError,
>
    decreases ev.len() - j,
{
    if j < 0 || j >= ev.len() {
        Ok((ev.len() as int, None))
    } else {
        match ev[j].1 {
            EventView::Type(t) => if t.len() > 0 && t.last().ty == Type::Unknown {
                if t.last().name == "pub"@ {
                    item_after(ev, j + 1, cur)
                } else if variant_scope(cur) {
                    Ok(
                        (
                            j,
                            Some(
                                cur->0.push(
                                    NodeView {
                                        ty: Type::Variant,
                                        name: t.last().name,
                                        args: t.last().args,
                                    },
                                ),
                            ),
                        ),
                    )
                } else {
                    Ok((j, None))
                }
            } else {
                Ok((j, scope_in(cur, Some(t))))
            },
            _ => Err(StripError::CommentWithoutItem),
        }
    }
}

pub open spec fn prepend(s: Seq<char>, r: Result<Seq<char>, StripError>) -> Result<
    Seq<char>,
    StripError,
> {
    match r {
        Ok(t) => Ok(s + t),
        Err(e) => Err(e),
    }
}

/// The sidecar records made from events `it..`, with `cur` the current scope
/// and `wait` the declaration waiting for its brace.
pub open spec fn strip_walk(
    ev: Seq<(nat, EventView)>,
    it: int,
    cur: Option<Seq<NodeView>>,
    wait: Option<Seq<NodeView>>,
    ig: bool,
) -> Result<Seq<char>, StripError>
    decreases ev.len() - it,
{
    if it < 0 || it >= ev.len() {
        Ok(Seq::empty())
    } else {
        match ev[it].1 {
            EventView::Type(t) => strip_walk(
                ev,
                it + 1,
                cur,
                if t.len() > 0 && t.last().ty != Type::Unknown {
                    Some(t)
                } else {
                    wait
                },
                ig,
            ),
            EventView::InScope => strip_walk(ev, it + 1, scope_in(cur, wait), None, ig),
            EventView::OutScope => strip_walk(ev, it + 1, scope_out(cur), None, ig),
            EventView::FileComment(_) => match file_block(ev, it, cur, ig) {
                Err(x) => Err(x),
                Ok((head, e)) => if e <= it || e > ev.len() {
                    Ok(head)
                } else {
                    prepend(head, strip_walk(ev, e, cur, wait, ig))
                },
            },
            EventView::Comment(_) => match comment_block(ev, it, cur, ig) {
                Err(x) => Err(x),
                Ok((rec, j)) => if j <= it || j > ev.len() {
                    Ok(rec)
                } else {
                    prepend(rec, strip_walk(ev, j, cur, wait, ig))
                },
            },
        }
    }
}

/// The record of the inner doc comment whose lines start at event `it`, and
/// the index after them; an error when it is not at top level or in a module.
pub open spec fn file_block(
    ev: Seq<(nat, EventView)>,
    it: int,
    cur: Option<Seq<NodeView>>,
    ig: bool,
) -> Result<(Seq<char>, int), StripError> {
    if !module_scope(cur) {
        Err(StripError::FileCommentOutsideModule)
    } else {
        let e = run_end(ev, it + 1, true);
        Ok(
            (
                file_comment_spec(unformat_spec(ev_text(ev[it].1)), cur, ig) + seq!['\n']
                    + unformat_run(ev, it + 1, e),
                e,
            ),
        )
    }
}

/// The record of the outer doc comment whose lines start at event `it` (empty
/// when it documents nothing that is recorded), and the index of the event
/// after the documented item's `pub` words.
pub open spec fn comment_block(
    ev: Seq<(nat, EventView)>,
    it: int,
    cur: Option<Seq<NodeView>>,
    ig: bool,
) -> Result<(Seq<char>, int), StripError> {
    let e = run_end(ev, it + 1, false);
    if 0 <= e < ev.len() && !(ev[e].1 is Type) {
        Err(StripError::CommentWithoutItem)
    } else {
        match item_after(ev, e, cur) {
            Err(x) => Err(x),
            Ok((j, p)) => Ok(
                (
                    match p {
                        Some(path) => record_spec(path, unformat_spec(raw_run(ev, it, e)), ig),
                        None => Seq::empty(),
                    },
                    j,
                ),
            ),
        }
    }
}

} // verus!

verus! {

fn text_chars(s: &String) -> (r: Vec<char>)
    ensures
        r@ == s@,
{
    chars_of(s.as_str())
}

/// The item that a doc comment ending before event `k` documents: where the
/// walk goes on and the path to file the comment under.
pub fn find_item(events: &Vec<EventInfo>, k: usize, current: &Option<TypeStruct>) -> (r: Result<
    (usize, Option<TypeStruct>),
    StripError,
>)
    requires
        k <= events@.len(),
    ensures
        item_after(events_view(events@), k as int, opt_view(*current)) == match r {
            Ok(found) => Ok::<(int, Option<Seq<NodeView>>), StripError>(
                (found.0 as int, opt_view(found.1)),
            ),
            Err(e) => Err(e),
        },
        r is Ok ==> k <= r->Ok_0.0 <= events@.len(),
{
    let ghost ev = events_view(events@);
    let n = events.len();
    let mut j = k;
    while j < n
        invariant
            n == events@.len(),
            ev == events_view(events@),
            k <= j <= n,
            item_after(ev, k as int, opt_view(*current)) == item_after(ev, j as int, opt_view(*current)),
        decreases n - j,
    {
        assert(ev[j as int] == events@[j as int]@);
        match &events[j].event {
            EventType::Type(t) => {
                if t.ty == Type::Unknown {
                    if str_eq(t.name.as_str(), "pub") {
                        j += 1;
                        continue;
                    }
                    let fields = match current {
                        Some(cs) => cs.ty == Type::Enum || cs.ty == Type::Struct || cs.ty
                            == Type::Use,
                        None => false,
                    };
                    if fields {
                        let mut node = t.node();
                        node.ty = Type::Variant;
                        match current {
                            Some(cs) => {
                                let p = cs.child(&node);
                                assert(node@ == NodeView {
                                    ty: Type::Variant,
                                    name: t@.last().name,
                                    args: t@.last().args,
                                });
                                return Ok((j, Some(p)));
                            },
                            None => {},
                        }
                    }
                    return Ok((j, None));
                } else {
                    let p = add_to_type_scope(current, &Some(t.duplicate()));
                    return Ok((j, p));
                }
            },
            _ => {
                return Err(StripError::CommentWithoutItem);
            },
        }
    }
    Ok((n, None))
}

pub proof fn lemma_prepend_assoc(a: Seq<char>, b: Seq<char>, r: Result<Seq<char>, StripError>)
    ensures
        prepend(a + b, r) == prepend(a, prepend(b, r)),
{
    match r {
        Ok(t) => {
            assert(a + b + t =~= a + (b + t));
        },
        Err(_) => {},
    }
}

/// Whether an event is an outer (`file == false`) or inner doc-comment line.
pub fn is_doc_event(e: &EventInfo, file: bool) -> (r: bool)
    ensures
        r == is_doc_ev(e@.1, file),
{
    match &e.event {
        EventType::Comment(_) => !file,
        EventType::FileComment(_) => file,
        _ => false,
    }
}

/// The record of the inner doc comment whose lines start at event `it`.
pub fn file_block_at(
    events: &Vec<EventInfo>,
    it: usize,
    current: &Option<TypeStruct>,
    ignore_macros: bool,
) -> (r: Result<(Vec<char>, usize), StripError>)
    requires
        it < events@.len(),
        events@[it as int].event is FileComment,
    ensures
        file_block(events_view(events@), it as int, opt_view(*current), ignore_macros) == match r {
            Ok(found) => Ok::<(Seq<char>, int), StripError>((found.0@, found.1 as int)),
            Err(e) => Err(e),
        },
        r is Ok ==> it < r->Ok_0.1 <= events@.len(),
{
    let ghost ev = events_view(events@);
    let n = events.len();
    let in_module = match current {
        Some(t) => t.ty == Type::Mod,
        None => true,
    };
    if !in_module {
        return Err(StripError::FileCommentOutsideModule);
    }
    assert(ev[it as int] == events@[it as int]@);
    let first = match &events[it].event {
        EventType::FileComment(c) => string_of(unformat_comment(&text_chars(c)).as_slice()),
        _ => String::new(),
    };
    let mut head = text_chars(&write_file_comment(first.as_str(), current, ignore_macros));
    head.push('\n');
    let mut k = it + 1;
    assert(unformat_run(ev, it + 1, k as int) =~= Seq::<char>::empty());
    assert(head@ =~= file_comment_spec(unformat_spec(ev_text(ev[it as int].1)), opt_view(*current), ignore_macros)
        + seq!['\n'] + unformat_run(ev, it + 1, k as int));
    while k < n && is_doc_event(&events[k], true)
        invariant
            n == events@.len(),
            ev == events_view(events@),
            it < k <= n,
            run_end(ev, it + 1, true) == run_end(ev, k as int, true),
            head@ == file_comment_spec(unformat_spec(ev_text(ev[it as int].1)), opt_view(*current), ignore_macros)
                + seq!['\n'] + unformat_run(ev, it + 1, k as int),
        decreases n - k,
    {
        assert(ev[k as int] == events@[k as int]@);
        match &events[k].event {
            EventType::FileComment(ci) => {
                push_all(&mut head, &unformat_comment(&text_chars(ci)));
                head.push('\n');
            },
            _ => {},
        }
        k += 1;
    }
    Ok((head, k))
}

/// The record of the outer doc comment whose lines start at event `it`, and
/// where the walk goes on.
pub fn comment_block_at(
    events: &Vec<EventInfo>,
    it: usize,
    current: &Option<TypeStruct>,
    ignore_macros: bool,
) -> (r: Result<(Vec<char>, usize), StripError>)
    requires
        it < events@.len(),
        events@[it as int].event is Comment,
    ensures
        comment_block(events_view(events@), it as int, opt_view(*current), ignore_macros) == match r {
            Ok(found) => Ok::<(Seq<char>, int), StripError>((found.0@, found.1 as int)),
            Err(e) => Err(e),
        },
        r is Ok ==> it < r->Ok_0.1 <= events@.len(),
{
    let ghost ev = events_view(events@);
    let n = events.len();
    assert(ev[it as int] == events@[it as int]@);
    let mut raw = match &events[it].event {
        EventType::Comment(c) => text_chars(c),
        _ => Vec::new(),
    };
    raw.push('\n');
    let mut k = it + 1;
    assert(raw_run(ev, it as int, k as int) =~= raw@) by {
        assert(raw_run(ev, it as int, it as int) =~= Seq::<char>::empty());
    }
    while k < n && is_doc_event(&events[k], false)
        invariant
            n == events@.len(),
            ev == events_view(events@),
            it < k <= n,
            run_end(ev, it + 1, false) == run_end(ev, k as int, false),
            raw@ == raw_run(ev, it as int, k as int),
        decreases n - k,
    {
        assert(ev[k as int] == events@[k as int]@);
        match &events[k].event {
            EventType::Comment(ci) => {
                push_all(&mut raw, &text_chars(ci));
                raw.push('\n');
            },
            _ => {},
        }
        k += 1;
    }
    if k < n {
        assert(ev[k as int] == events@[k as int]@);
        match &events[k].event {
            EventType::Type(_) => {},
            _ => {
                return Err(StripError::CommentWithoutItem);
            },
        }
    }
    let (j, path) = match find_item(events, k, current) {
        Ok(found) => found,
        Err(e) => {
            return Err(e);
        },
    };
    let rec = match &path {
        Some(p) => {
            let body = string_of(unformat_comment(&raw).as_slice());
            text_chars(&write_comment(p, body.as_str(), ignore_macros))
        },
        None => Vec::new(),
    };
    assert(rec@ =~= match opt_view(path) {
        Some(pv) => record_spec(pv, unformat_spec(raw@), ignore_macros),
        None => Seq::<char>::empty(),
    });
    Ok((rec, j))
}

/// The sidecar records of a file's events, or why they cannot be made.
pub fn strip_events(events: &Vec<EventInfo>, ignore_macros: bool) -> (r: Result<Vec<char>, StripError>)
    ensures
        strip_walk(events_view(events@), 0, None, None, ignore_macros) == match r {
            Ok(v) => Ok::<Seq<char>, StripError>(v@),
            Err(e) => Err(e),
        },
{
    let ghost ev = events_view(events@);
    let n = events.len();
    let mut out: Vec<char> = Vec::new();
    let mut current: Option<TypeStruct> = None;
    let mut waiting_type: Option<TypeStruct> = None;
    let mut it: usize = 0;
    while it < n
        invariant
            n == events@.len(),
            ev == events_view(events@),
            ev.len() == n,
            it <= n,
            strip_walk(ev, 0, None, None, ignore_macros) == prepend(
                out@,
                strip_walk(ev, it as int, opt_view(current), opt_view(waiting_type), ignore_macros),
            ),
        decreases n - it,
    {
        assert(ev[it as int] == events@[it as int]@);
        match &events[it].event {
            EventType::Type(t) => {
                if t.ty != Type::Unknown {
                    waiting_type = Some(t.duplicate());
                }
                it += 1;
            },
            EventType::InScope => {
                current = add_to_type_scope(&current, &waiting_type);
                waiting_type = None;
                it += 1;
            },
            EventType::OutScope => {
                current = type_out_scope(&current);
                waiting_type = None;
                it += 1;
            },
            EventType::FileComment(_) => {
                let (head, e) = match file_block_at(events, it, &current, ignore_macros) {
                    Ok(found) => found,
                    Err(x) => {
                        return Err(x);
                    },
                };
                let ghost out0 = out@;
                push_all(&mut out, &head);
                proof {
                    lemma_prepend_assoc(
                        out0,
                        head@,
                        strip_walk(ev, e as int, opt_view(current), opt_view(waiting_type), ignore_macros),
                    );
                }
                it = e;
            },
            EventType::Comment(_) => {
                let (rec, j) = match comment_block_at(events, it, &current, ignore_macros) {
                    Ok(found) => found,
                    Err(x) => {
                        return Err(x);
                    },
                };
                let ghost out0 = out@;
                push_all(&mut out, &rec);
                proof {
                    lemma_prepend_assoc(
                        out0,
                        rec@,
                        strip_walk(ev, j as int, opt_view(current), opt_view(waiting_type), ignore_macros),
                    );
                }
                it = j;
            },
        }
    }
    Ok(out)
}

} // verus!

verus! {

/// Whether a trimmed line starts with a doc-comment marker.
pub open spec fn is_doc_start(l: Seq<char>) -> bool {
    occurs_at(l, 0, seq!['/', '/', '/']) || occurs_at(l, 0, seq!['/', '*', '!']) || occurs_at(
        l,
        0,
        seq!['/', '/', '!'],
    ) || occurs_at(l, 0, seq!['/', '*', '*'])
}

/// Removes original line `l` from `lines`, of which `decal` lines are gone
/// already. An ignore-next-stop directive right above it goes too when a doc
/// comment follows: that comment stays, and the directive has done its work.
pub open spec fn remove_step(lines: Seq<Seq<char>>, decal: int, l: int) -> (Seq<Seq<char>>, int) {
    if l < decal || l - decal >= lines.len() {
        (lines, decal)
    } else {
        let p = l - decal;
        if p > 0 && p + 1 < lines.len() && trim_spec(lines[p - 1])
            == IGNORE_NEXT_COMMENT_STOP@ && is_doc_start(trim_spec(lines[p + 1])) {
            (lines.remove(p - 1).remove(p - 1), decal + 2)
        } else {
            (lines.remove(p), decal + 1)
        }
    }
}

/// The lines left after removing the first `k` listed lines, and how many went.
pub open spec fn remove_all(lines: Seq<Seq<char>>, to_remove: Seq<usize>, k: int) -> (
    Seq<Seq<char>>,
    int,
)
    decreases k,
{
    if k <= 0 || k > to_remove.len() {
        (lines, 0)
    } else {
        let (ls, d) = remove_all(lines, to_remove, k - 1);
        remove_step(ls, d, to_remove[k - 1] as int)
    }
}

fn is_doc_start_line(l: &Vec<char>) -> (r: bool)
    ensures
        r == is_doc_start(l@),
{
    let a = vec!['/', '/', '/'];
    let b = vec!['/', '*', '!'];
    let c = vec!['/', '/', '!'];
    let d = vec!['/', '*', '*'];
    assert(a@ =~= seq!['/', '/', '/'] && b@ =~= seq!['/', '*', '!']);
    assert(c@ =~= seq!['/', '/', '!'] && d@ =~= seq!['/', '*', '*']);
    starts_with(l, &a) || starts_with(l, &b) || starts_with(l, &c) || starts_with(l, &d)
}

/// The lines of a file once its doc-comment lines are removed.
pub fn remove_comments(to_remove: &Vec<usize>, o_content: Vec<Vec<char>>) -> (r: Vec<Vec<char>>)
    ensures
        r@.map_values(|v: Vec<char>| v@) == remove_all(
            o_content@.map_values(|v: Vec<char>| v@),
            to_remove@,
            to_remove@.len() as int,
        ).0,
{
    let ghost l0 = o_content@.map_values(|v: Vec<char>| v@);
    let stop = chars_of(IGNORE_NEXT_COMMENT_STOP);
    let mut lines = o_content;
    let total = lines.len();
    let mut decal: usize = 0;
    let mut k: usize = 0;
    while k < to_remove.len()
        invariant
            k <= to_remove@.len(),
            stop@ == IGNORE_NEXT_COMMENT_STOP@,
            lines@.map_values(|v: Vec<char>| v@) == remove_all(l0, to_remove@, k as int).0,
            decal as int == remove_all(l0, to_remove@, k as int).1,
            decal + lines@.len() == total,
            total == l0.len(),
        decreases to_remove@.len() - k,
    {
        let ghost lv = lines@.map_values(|v: Vec<char>| v@);
        let line = to_remove[k];
        if line >= decal && line - decal < lines.len() {
            let p = line - decal;
            if p > 0 && p + 1 < lines.len() && seq_eq(&trim(&lines[p - 1]), &stop)
                && is_doc_start_line(&trim(&lines[p + 1])) {
                lines.remove(p - 1);
                lines.remove(p - 1);
                decal += 2;
                assert(lines@.map_values(|v: Vec<char>| v@) =~= lv.remove(p - 1).remove(p - 1));
            } else {
                lines.remove(p);
                decal += 1;
                assert(lines@.map_values(|v: Vec<char>| v@) =~= lv.remove(p as int));
            }
        }
        k += 1;
    }
    lines
}

/// What stripping a file gives: its sidecar section and its new text.
#[derive(Debug, Clone)]
pub struct StrippedFile {
    pub sidecar: String,
    pub content: String,
}

/// The sidecar section and the new text of the file at `path` whose scan is
/// `sc`; nothing when it holds no doc comment.
pub open spec fn strip_outcome(path: Seq<char>, sc: ScanView, ig: bool) -> Result<
    Option<(Seq<char>, Seq<char>)>,
    StripError,
> {
    if sc.comment_lines.len() == 0 {
        Ok(None)
    } else {
        match strip_walk(sc.events, 0, None, None, ig) {
            Err(e) => Err(e),
            Ok(records) => Ok(
                Some(
                    (
                        FILE@ + path + END_INFO@ + seq!['\n'] + records,
                        join_spec(
                            remove_all(sc.lines, sc.comment_lines, sc.comment_lines.len() as int).0,
                            seq!['\n'],
                        ),
                    ),
                ),
            ),
        }
    }
}

pub open spec fn stripped_view(r: Result<Option<StrippedFile>, StripError>) -> Result<
    Option<(Seq<char>, Seq<char>)>,
    StripError,
> {
    match r {
        Ok(Some(f)) => Ok(Some((f.sidecar@, f.content@))),
        Ok(None) => Ok(None),
        Err(e) => Err(e),
    }
}

/// Strips the scanned file at `path`.
pub fn strip_parse_result(path: &str, parse_result: &ParseResult, ignore_macros: bool) -> (r: Result<
    Option<StrippedFile>,
    StripError,
>)
    ensures
        stripped_view(r) == strip_outcome(path@, parse_view(*parse_result), ignore_macros),
{
    if parse_result.comment_lines.len() == 0 {
        return Ok(None);
    }
    let records = match strip_events(&parse_result.event_list, ignore_macros) {
        Ok(v) => v,
        Err(e) => {
            return Err(e);
        },
    };
    let mut sidecar = text_chars(&write_file(path));
    sidecar.push('\n');
    push_all(&mut sidecar, &records);
    let lines = strings_chars(&parse_result.original_content);
    let kept = remove_comments(&parse_result.comment_lines, lines);
    let nl = vec!['\n'];
    assert(nl@ =~= seq!['\n']);
    let content = join_chars(&kept, &nl);
    assert(sidecar@ =~= FILE@ + path@ + END_INFO@ + seq!['\n'] + records@);
    assert(lines@.map_values(|v: Vec<char>| v@) == strings_view(parse_result.original_content@));
    assert(strings_view(parse_result.original_content@) == parse_view(*parse_result).lines);
    Ok(Some(StrippedFile { sidecar: string_of(sidecar.as_slice()), content: string_of(content.as_slice()) }))
}

/// Strips the file at `path` whose text is `content`: its sidecar section and
/// its text without the doc-comment lines, nothing when the scan finds no
/// doc comment, or why the comments cannot be filed.
pub fn strip_comments(path: &str, content: &str, ignore_macros: bool) -> (r: Result<
    Option<StrippedFile>,
    StripError,
>)
    ensures
        stripped_view(r) == strip_outcome(path@, scan_spec(content@), ignore_macros),
        no_doc_words(words_spec(clean_from(content@, 0))) ==> r matches Ok(None),
{
    let pr = build_event_list(content);
    strip_parse_result(path, &pr, ignore_macros)
}

} // verus!

verus! {

/// What the file walker does with each file, with its settings.
#[derive(Debug, Clone, Copy, PartialEq, Eq, Structural)]
pub enum Action {
    /// Move doc comments out into the sidecar.
    Strip { ignore_macros: bool },
    /// Put doc comments back from the sidecar's records.
    Regenerate { ignore_macros: bool, ignore_doc_commented: bool },
}

/// Does `action` on the file at `path` whose text is `content`: the text to
/// write back and the sidecar text to append (empty when regenerating), or
/// nothing when the file is left as it is. Regenerating uses and removes
/// records of `infos`.
pub fn process_file(
    action: Action,
    path: &str,
    content: &str,
    infos: &mut Vec<crate::regenerate::FileSection>,
) -> (r: Result<Option<StrippedFile>, StripError>)
    ensures
        match action {
            Action::Strip { ignore_macros } => stripped_view(r) == strip_outcome(
                path@,
                scan_spec(content@),
                ignore_macros,
            ) && final(infos)@ == old(infos)@,
            Action::Regenerate { ignore_macros, ignore_doc_commented } => {
                let g = crate::regenerate::regen_file_spec(
                    path@,
                    content@,
                    crate::regenerate::sections_view(old(infos)@),
                    ignore_macros,
                    ignore_doc_commented,
                );
                &&& crate::regenerate::sections_view(final(infos)@) == g.1
                &&& match g.0 {
                    Some(t) => stripped_view(r) == Ok::<Option<(Seq<char>, Seq<char>)>, StripError>(
                        Some((Seq::empty(), t)),
                    ),
                    None => stripped_view(r) == Ok::<Option<(Seq<char>, Seq<char>)>, StripError>(
                        None,
                    ),
                }
            },
        },
{
    match action {
        Action::Strip { ignore_macros } => strip_comments(path, content, ignore_macros),
        Action::Regenerate { ignore_macros, ignore_doc_commented } => {
            match crate::regenerate::regenerate_comments(
                path,
                content,
                infos,
                ignore_macros,
                ignore_doc_commented,
            ) {
                Some(text) => Ok(Some(StrippedFile { sidecar: String::new(), content: text })),
                None => Ok(None),
            }
        },
    }
}

} // verus!
