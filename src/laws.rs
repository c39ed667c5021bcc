//! Properties that hold across the scanner, the stripper and the regenerator.

use vstd::prelude::*;
use crate::lexer::{
    clean_step, comment_end, doc_kind, first_comment, ignore_scan, line_start,
    nl_pad, transform_spec, IGNORE_NEXT_COMMENT, IGNORE_NEXT_COMMENT_STOP,
};
use crate::events::scan_spec;
use crate::regenerate::{
    erase_spec, first_section, lemma_first_section_found, lemma_regen_keeps, never_looked_up,
    own_pass, regen_events, regen_file_spec, types_match, EntryView, SectionView,
};
use crate::text::split_spec;
use crate::strip::{item_after, strip_outcome, StripError};
use crate::text::{count_spec, occurs_at, trim_spec};
use crate::types::{
    is_macro_node, kept_texts, path_text_spec, EventView, NodeView, Type,
};

verus! {

/// A file whose scan finds no doc-comment line is left as it is, and gives no
/// sidecar section.
pub proof fn lemma_no_doc_comment_no_change(path: Seq<char>, content: Seq<char>, ig: bool)
    requires
        scan_spec(content).comment_lines.len() == 0,
    ensures
        strip_outcome(path, scan_spec(content), ig) == Ok::<Option<(Seq<char>, Seq<char>)>, StripError>(
            None,
        ),
{
}

/// A doc comment before a bare word in a struct or enum body is filed under
/// that word as a variant of the enclosing item, and that record is found
/// again at the same word when regenerating.
pub proof fn lemma_variant_fallback(
    ev: Seq<(nat, EventView)>,
    j: int,
    c: Seq<NodeView>,
    t: Seq<NodeView>,
)
    requires
        0 <= j < ev.len(),
        ev[j].1 == EventView::Type(t),
        t.len() > 0,
        t.last().ty == Type::Unknown,
        t.last().name != "pub"@,
        c.len() > 0,
        c.last().ty == Type::Struct || c.last().ty == Type::Enum,
    ensures
        ({
            let v = c.push(NodeView { ty: Type::Variant, name: t.last().name, args: t.last().args });
            &&& item_after(ev, j, Some(c)) == Ok::<(int, Option<Seq<NodeView>>), StripError>(
                (j, Some(v)),
            )
            &&& types_match(v, c.push(t.last()))
        }),
{
    let v = c.push(NodeView { ty: Type::Variant, name: t.last().name, args: t.last().args });
    let b = c.push(t.last());
    assert(v.drop_last() =~= b.drop_last());
    assert(b[b.len() - 2] == c.last());
}

/// A doc comment that follows an ignore-next directive is not kept by the
/// scanner: line breaks take its place, so it is neither filed nor removed.
pub proof fn lemma_ignored_doc_comment_stays(s: Seq<char>, start: int)
    requires
        0 <= start,
        first_comment(s, start) < s.len(),
        doc_kind(s, first_comment(s, start)) is Some,
        ({
            let i = first_comment(s, start);
            let k = doc_kind(s, i)->0;
            ignore_scan(s, comment_end(s, i + 3, k == 1 || k == 3).1, false)
        }),
    ensures
        ({
            let i = first_comment(s, start);
            let k = doc_kind(s, i)->0;
            let (cend, next) = comment_end(s, i + 3, k == 1 || k == 3);
            clean_step(s, start) == (
                transform_spec(s.subrange(start, i)) + nl_pad(count_spec(s.subrange(i + 3, cend), '\n')),
                next,
            )
        }),
{
}

/// The directive: a doc-comment line right below a line that reads, once
/// trimmed, `// rustdoc-stripper-ignore-next` is ignored.
pub proof fn lemma_ignore_next_directive(s: Seq<char>, end: int)
    requires
        0 <= end <= s.len(),
        line_start(s, end) > 0,
        line_start(s, end) <= end,
        occurs_at(trim_spec(s.subrange(line_start(s, end), end)), 0, seq!['/', '/', '/']),
        trim_spec(s.subrange(line_start(s, line_start(s, end) - 1), line_start(s, end) - 1))
            == IGNORE_NEXT_COMMENT@,
    ensures
        ignore_scan(s, end, false),
{
    let ls = line_start(s, end);
    let line = trim_spec(s.subrange(ls, end));
    reveal_strlit("// rustdoc-stripper-ignore-next");
    reveal_strlit("// rustdoc-stripper-ignore-next-stop");
    assert(line.subrange(0, 3) == seq!['/', '/', '/']);
    assert(line[0] == line.subrange(0, 3)[0] && line[1] == line.subrange(0, 3)[1]);
    assert(line[2] == line.subrange(0, 3)[2]);
    assert(occurs_at(line, 0, seq!['/', '/'])) by {
        assert(line.subrange(0, 2) =~= seq!['/', '/']);
    }
    assert(!occurs_at(line, 0, seq!['/', '*'])) by {
        assert(line[1] == '/');
    }
    lemma_line_start_le(s, ls - 1);
    let up = trim_spec(s.subrange(line_start(s, ls - 1), ls - 1));
    assert(up == IGNORE_NEXT_COMMENT@);
    assert(!ends_with_close(up));
    assert(up != IGNORE_NEXT_COMMENT_STOP@) by {
        assert(up.len() != IGNORE_NEXT_COMMENT_STOP@.len());
    }
    assert(!occurs_at(up, 0, seq!['/', '*'])) by {
        assert(up[1] == '/');
    }
    assert(line != IGNORE_NEXT_COMMENT_STOP@) by {
        if line == IGNORE_NEXT_COMMENT_STOP@ {
            assert(IGNORE_NEXT_COMMENT_STOP@[2] == ' ');
        }
    }
    assert(line != IGNORE_NEXT_COMMENT@) by {
        if line == IGNORE_NEXT_COMMENT@ {
            assert(IGNORE_NEXT_COMMENT@[2] == ' ');
        }
    }
    reveal_with_fuel(ignore_scan, 2);
}

spec fn ends_with_close(l: Seq<char>) -> bool {
    crate::text::ends_with_spec(l, seq!['*', '/'])
}

pub proof fn lemma_line_start_le(s: Seq<char>, end: int)
    ensures
        line_start(s, end) <= if end < 0 { 0 } else { end },
        line_start(s, end) >= 0,
    decreases end,
{
    if end > 0 && s[end - 1] != '\n' {
        lemma_line_start_le(s, end - 1);
    }
}

/// The stop directive: a doc-comment line right below a line that reads,
/// once trimmed, `// rustdoc-stripper-ignore-next-stop` is stripped as usual.
pub proof fn lemma_ignore_next_stop_directive(s: Seq<char>, end: int)
    requires
        0 <= end <= s.len(),
        line_start(s, end) > 0,
        line_start(s, end) <= end,
        occurs_at(trim_spec(s.subrange(line_start(s, end), end)), 0, seq!['/', '/', '/']),
        trim_spec(s.subrange(line_start(s, line_start(s, end) - 1), line_start(s, end) - 1))
            == IGNORE_NEXT_COMMENT_STOP@,
    ensures
        !ignore_scan(s, end, false),
{
    let ls = line_start(s, end);
    let line = trim_spec(s.subrange(ls, end));
    reveal_strlit("// rustdoc-stripper-ignore-next");
    reveal_strlit("// rustdoc-stripper-ignore-next-stop");
    assert(line.subrange(0, 3) == seq!['/', '/', '/']);
    assert(line[0] == line.subrange(0, 3)[0] && line[1] == line.subrange(0, 3)[1]);
    assert(line[2] == line.subrange(0, 3)[2]);
    assert(occurs_at(line, 0, seq!['/', '/'])) by {
        assert(line.subrange(0, 2) =~= seq!['/', '/']);
    }
    assert(!occurs_at(line, 0, seq!['/', '*'])) by {
        assert(line[1] == '/');
    }
    lemma_line_start_le(s, ls - 1);
    let up = trim_spec(s.subrange(line_start(s, ls - 1), ls - 1));
    assert(up == IGNORE_NEXT_COMMENT_STOP@);
    assert(!occurs_at(up, 0, seq!['/', '*'])) by {
        assert(up[1] == '/');
    }
    assert(line != IGNORE_NEXT_COMMENT_STOP@) by {
        if line == IGNORE_NEXT_COMMENT_STOP@ {
            assert(IGNORE_NEXT_COMMENT_STOP@[2] == ' ');
        }
    }
    assert(line != IGNORE_NEXT_COMMENT@) by {
        if line == IGNORE_NEXT_COMMENT@ {
            assert(IGNORE_NEXT_COMMENT@[2] == ' ');
        }
    }
    reveal_with_fuel(ignore_scan, 2);
    assert(!ends_with_close(up)) by {
        assert(up[up.len() - 1] == 'p');
    }
}

/// A macro invocation around an item disappears from its sidecar path when
/// macros are ignored, both in the header written and in the path looked up
/// when regenerating.
pub proof fn lemma_macro_frame_hidden(c: Seq<NodeView>, m: NodeView, n: NodeView)
    requires
        m.ty == Type::Macro,
    ensures
        path_text_spec(c.push(m).push(n), true) == path_text_spec(c.push(n), true),
        erase_spec(c.push(m).push(n)) == erase_spec(c.push(n)),
{
    assert(c.push(m).push(n).drop_last() =~= c.push(m));
    assert(c.push(n).drop_last() =~= c);
    assert(c.push(m).drop_last() =~= c);
    assert(is_macro_node(m));
    assert(kept_texts(c.push(m), true) == kept_texts(c, true));
}

/// A record that no declaration of the file answers to is not lost: after
/// regenerating the file it is still among the records of its section, which
/// the residual sidecar writes out again. The lookups that count are those of
/// the pass that handles the record's section: the file's own section on the
/// file's lines, then the section for every file on the lines that pass made.
pub proof fn lemma_unmatched_record_kept(
    path: Seq<char>,
    content: Seq<char>,
    sv: Seq<SectionView>,
    i: int,
    x: EntryView,
    ig: bool,
    idc: bool,
)
    requires
        0 <= i < sv.len(),
        sv[i].entries.contains(x),
        x.ty is Some,
        i == first_section(sv, Some(path), 0) ==> never_looked_up(
            x,
            regen_events(split_spec(content, '\n'), sv[i].entries),
            ig,
        ),
        i == first_section(sv, None, 0) ==> never_looked_up(
            x,
            regen_events(own_pass(path, content, sv, ig, idc).0, sv[i].entries),
            ig,
        ),
    ensures
        regen_file_spec(path, content, sv, ig, idc).1.len() == sv.len(),
        regen_file_spec(path, content, sv, ig, idc).1[i].entries.contains(x),
{
    let ex = first_section(sv, Some(path), 0);
    let wi = first_section(sv, None, 0);
    if ex >= sv.len() && wi >= sv.len() {
    } else {
        if ex < sv.len() {
            lemma_first_section_found(sv, Some(path), 0);
        }
        if wi < sv.len() {
            lemma_first_section_found(sv, None, 0);
        }
        let (c1, sv1) = own_pass(path, content, sv, ig, idc);
        if ex == i {
            lemma_regen_keeps(split_spec(content, '\n'), sv[ex].entries, ig, idc, x);
        }
        assert(sv1.len() == sv.len());
        assert(sv1[i].entries.contains(x));
        if 0 <= wi < sv.len() {
            assert(wi != ex);
            assert(sv1[wi] == sv[wi]);
            if wi == i {
                lemma_regen_keeps(c1, sv1[wi].entries, ig, idc, x);
            }
        }
    }
}

} // verus!
