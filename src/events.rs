//! The event builder: reads the words of a scanned file and lists its
//! comments, declarations and braces.

use vstd::prelude::*;
use crate::lexer::{
    clean_from, clean_input, first_occ, first_stop, get_before, remove_stop_chars, without_stops,
};
use crate::text::{
    chars_of, contains, count_char, ends_with, join_chars, occurs_at, push_all, seq_eq, slice,
    split_char, starts_with, string_of, trim, words_of,
};
use crate::strip::{add_to_type_scope, opt_view, scope_in, scope_out, type_out_scope};
use crate::text::{
    contains_spec, count_spec, ends_with_spec, join_spec, split_spec, trim_spec, words_spec,
};
use crate::types::{
    events_view, type_from_chars, type_from_spec, EventInfo, EventType, EventView, NodeView, ParseResult, Type,
    TypeStruct,
};

verus! {

/// Whether the word `w` is `s`.
pub fn word_is(w: &Vec<char>, s: &str) -> (r: bool)
    ensures
        r == (w@ == s@),
{
    seq_eq(w, &chars_of(s))
}

/// Whether the word `w` starts with `s`.
pub fn word_starts(w: &Vec<char>, s: &str) -> (r: bool)
    ensures
        r == occurs_at(w@, 0, s@),
{
    starts_with(w, &chars_of(s))
}

/// A line counter moved on by `n`, stopping short of `usize::MAX`.
pub open spec fn bump_spec(line: usize, n: int) -> usize {
    if 0 <= n && line <= usize::MAX - n {
        (line + n) as usize
    } else {
        line
    }
}

/// The words as character sequences.
pub open spec fn chars_view(v: Seq<Vec<char>>) -> Seq<Seq<char>> {
    v.map_values(|w: Vec<char>| w@)
}

/// From word `k` on, the first word that holds `limit`, and the line counter
/// after the `\n` words met on the way (that word included).
pub open spec fn move_to_scan(ws: Seq<Seq<char>>, k: int, limit: Seq<char>, line: usize) -> (int, usize)
    decreases ws.len() - k,
{
    if k < 0 || k >= ws.len() {
        (k, line)
    } else {
        let l2 = if ws[k] == "\n"@ {
            bump_spec(line, 1)
        } else {
            line
        };
        if contains_spec(ws[k], limit) {
            (k, l2)
        } else {
            move_to_scan(ws, k + 1, limit, l2)
        }
    }
}

/// Where `move_to` goes from word `it`: nowhere when the word, past its first
/// `skip` characters, holds `limit`; else to the next word that does.
pub open spec fn move_to_spec(ws: Seq<Seq<char>>, it: int, limit: Seq<char>, line: usize, skip: int) -> (
    int,
    usize,
) {
    let w = ws[it];
    let rest = if 0 <= skip <= w.len() {
        w.skip(skip)
    } else {
        Seq::empty()
    };
    if contains_spec(rest, limit) {
        (it, line)
    } else {
        move_to_scan(ws, it + 1, limit, line)
    }
}

/// From word `k` on, the first word that closes a string literal.
pub open spec fn string_scan(ws: Seq<Seq<char>>, k: int, line: usize) -> (int, usize)
    decreases ws.len() - k,
{
    if k < 0 || k >= ws.len() || quote_parity(ws[k], ws[k].len() as int) {
        (k, line)
    } else {
        string_scan(
            ws,
            k + 1,
            if ws[k] == "\n"@ {
                bump_spec(line, 1)
            } else {
                line
            },
        )
    }
}

/// Whether a word ends a block comment.
pub open spec fn closes_block(w: Seq<char>) -> bool {
    ends_with_spec(w, seq!['*', '/']) || ends_with_spec(w, seq!['*', '/', ';']) || ends_with_spec(
        w,
        seq!['*', '/', '\n'],
    )
}

/// From word `k` on, the first word that ends a block comment, with the line
/// breaks of the words before it counted.
pub open spec fn block_scan(ws: Seq<Seq<char>>, k: int, line: usize) -> (int, usize)
    decreases ws.len() - k,
{
    if k < 0 || k >= ws.len() || closes_block(ws[k]) {
        (k, line)
    } else {
        block_scan(ws, k + 1, bump_spec(line, count_spec(ws[k], '\n') as int))
    }
}

/// The words of an `impl` header from word `k` on (`acc` those taken so far),
/// up to the word before `{` or `;`, with where the scan stops.
pub open spec fn impl_scan(ws: Seq<Seq<char>>, k: int, line: usize, acc: Seq<Seq<char>>) -> (
    int,
    usize,
    Seq<Seq<char>>,
)
    decreases ws.len() - k,
{
    if k < 0 || k + 1 >= ws.len() {
        (k, line, acc)
    } else {
        let l2 = if ws[k] == "\n"@ {
            bump_spec(line, 1)
        } else {
            line
        };
        if ws[k + 1] == "{"@ || ws[k + 1] == ";"@ {
            (k, l2, acc)
        } else {
            impl_scan(ws, k + 1, l2, acc.push(ws[k + 1]))
        }
    }
}

/// From word `k` on, the first word that closes an attribute, with the line
/// breaks of the words up to it counted.
pub open spec fn attr_scan(ws: Seq<Seq<char>>, k: int, line: usize) -> (int, usize)
    decreases ws.len() - k,
{
    if k < 0 || k >= ws.len() {
        (k, line)
    } else {
        let l2 = bump_spec(line, count_spec(ws[k], '\n') as int);
        if ws[k].contains(']') {
            (k, l2)
        } else {
            attr_scan(ws, k + 1, l2)
        }
    }
}

/// Adds `n` to a line counter that cannot pass `usize::MAX`.
fn bump(line: &mut usize, n: usize)
    ensures
        *final(line) == bump_spec(*old(line), n as int),
{
    if *line <= usize::MAX - n {
        *line = *line + n;
    }
}

/// Moves to the next word that holds `limit`, unless the current word does
/// after its first `skip` characters; counts the line breaks passed.
fn move_to(words: &Vec<Vec<char>>, it: &mut usize, limit: &Vec<char>, line: &mut usize, skip: usize)
    requires
        *old(it) < words@.len(),
    ensures
        *old(it) <= *final(it) <= words@.len(),
        (*final(it) as int, *final(line)) == move_to_spec(
            chars_view(words@),
            *old(it) as int,
            limit@,
            *old(line),
            skip as int,
        ),
{
    let ghost ws = chars_view(words@);
    let w = &words[*it];
    assert(ws[*it as int] == w@);
    let rest = if skip <= w.len() {
        slice(w, skip, w.len())
    } else {
        Vec::new()
    };
    assert(skip <= w@.len() ==> rest@ =~= w@.skip(skip as int));
    if contains(&rest, limit) {
        return ;
    }
    let n = words.len();
    *it += 1;
    while *it < n
        invariant
            n == words@.len(),
            ws == chars_view(words@),
            *old(it) < *it <= n,
            move_to_spec(ws, *old(it) as int, limit@, *old(line), skip as int) == move_to_scan(
                ws,
                *it as int,
                limit@,
                *line,
            ),
        decreases n - *it,
    {
        assert(ws[*it as int] == words@[*it as int]@);
        let nl = word_is(&words[*it], "\n");
        if nl {
            bump(line, 1);
        }
        if contains(&words[*it], limit) {
            return ;
        }
        *it += 1;
    }
}

/// Whether the first `k` characters of `w` hold an odd number of double
/// quotes that no backslash escapes.
pub open spec fn quote_parity(w: Seq<char>, k: int) -> bool
    decreases k,
{
    if k <= 0 || k > w.len() {
        false
    } else {
        let q = w[k - 1] == '"' && (k - 1 == 0 || w[k - 2] != '\\');
        if q {
            !quote_parity(w, k - 1)
        } else {
            quote_parity(w, k - 1)
        }
    }
}

/// Whether a word holds an odd number of unescaped double quotes: it opens
/// or closes a string literal.
pub fn odd_quotes(w: &Vec<char>) -> (r: bool)
    ensures
        r == quote_parity(w@, w@.len() as int),
{
    let mut odd = false;
    let mut i: usize = 0;
    while i < w.len()
        invariant
            i <= w@.len(),
            odd == quote_parity(w@, i as int),
        decreases w@.len() - i,
    {
        if w[i] == '"' && (i == 0 || w[i - 1] != '\\') {
            odd = !odd;
        }
        i += 1;
    }
    odd
}

/// Moves from a word that opens a string literal to the word that closes it;
/// counts the line breaks passed.
fn skip_string(words: &Vec<Vec<char>>, it: &mut usize, line: &mut usize)
    requires
        *old(it) < words@.len(),
    ensures
        *old(it) <= *final(it) <= words@.len(),
        (*final(it) as int, *final(line)) == string_scan(
            chars_view(words@),
            *old(it) + 1,
            *old(line),
        ),
{
    let ghost ws = chars_view(words@);
    let n = words.len();
    *it += 1;
    while *it < n && !odd_quotes(&words[*it])
        invariant
            n == words@.len(),
            ws == chars_view(words@),
            *old(it) < *it <= n,
            string_scan(ws, *old(it) + 1, *old(line)) == string_scan(ws, *it as int, *line),
        decreases n - *it,
    {
        assert(ws[*it as int] == words@[*it as int]@);
        let nl = word_is(&words[*it], "\n");
        if nl {
            bump(line, 1);
        }
        *it += 1;
    }
    proof {
        if *it < n {
            assert(ws[*it as int] == words@[*it as int]@);
        }
    }
}

/// Moves to the next word that ends a block comment; counts the line breaks passed.
fn move_until(words: &Vec<Vec<char>>, it: &mut usize, line: &mut usize)
    requires
        *old(it) <= words@.len(),
    ensures
        *old(it) <= *final(it) <= words@.len(),
        (*final(it) as int, *final(line)) == block_scan(chars_view(words@), *old(it) as int, *old(line)),
{
    let ghost ws = chars_view(words@);
    let end = vec!['*', '/'];
    let end_semi = vec!['*', '/', ';'];
    let end_nl = vec!['*', '/', '\n'];
    assert(end@ =~= seq!['*', '/'] && end_semi@ =~= seq!['*', '/', ';'] && end_nl@ =~= seq!['*', '/', '\n']);
    while *it < words.len() && !ends_with(&words[*it], &end) && !ends_with(&words[*it], &end_semi)
        && !ends_with(&words[*it], &end_nl)
        invariant
            *old(it) <= *it <= words@.len(),
            ws == chars_view(words@),
            end@ == seq!['*', '/'],
            end_semi@ == seq!['*', '/', ';'],
            end_nl@ == seq!['*', '/', '\n'],
            block_scan(ws, *old(it) as int, *old(line)) == block_scan(ws, *it as int, *line),
        decreases words@.len() - *it,
    {
        assert(ws[*it as int] == words@[*it as int]@);
        let n = count_char(&words[*it], '\n');
        bump(line, n);
        *it += 1;
    }
    proof {
        if *it < words@.len() {
            assert(ws[*it as int] == words@[*it as int]@);
        }
    }
}

/// The words of an `impl` header, up to the word before its `{` or `;`.
fn get_impl(words: &Vec<Vec<char>>, it: &mut usize, line: &mut usize) -> (r: Vec<Vec<char>>)
    requires
        *old(it) < words@.len(),
    ensures
        *old(it) <= *final(it) < words@.len(),
        (*final(it) as int, *final(line), chars_view(r@)) == impl_scan(
            chars_view(words@),
            *old(it) as int,
            *old(line),
            Seq::empty(),
        ),
{
    let ghost ws = chars_view(words@);
    let mut v: Vec<Vec<char>> = Vec::new();
    let n = words.len();
    assert(chars_view(v@) =~= Seq::<Seq<char>>::empty());
    while *it + 1 < n
        invariant
            n == words@.len(),
            ws == chars_view(words@),
            *old(it) <= *it < words@.len(),
            impl_scan(ws, *old(it) as int, *old(line), Seq::empty()) == impl_scan(
                ws,
                *it as int,
                *line,
                chars_view(v@),
            ),
        decreases words@.len() - *it,
    {
        assert(ws[*it as int] == words@[*it as int]@);
        assert(ws[*it + 1] == words@[*it + 1]@);
        if word_is(&words[*it], "\n") {
            bump(line, 1);
        }
        if word_is(&words[*it + 1], "{") || word_is(&words[*it + 1], ";") {
            return v;
        }
        *it += 1;
        let ghost old_v = chars_view(v@);
        let w = slice(&words[*it], 0, words[*it].len());
        assert(w@ =~= words@[*it as int]@);
        v.push(w);
        assert(chars_view(v@) =~= old_v.push(ws[*it as int]));
    }
    v
}

/// Moves to the word that closes an attribute; counts the line breaks of the
/// words up to it.
fn skip_attribute(words: &Vec<Vec<char>>, it: &mut usize, line: &mut usize)
    requires
        *old(it) < words@.len(),
    ensures
        *old(it) <= *final(it) <= words@.len(),
        (*final(it) as int, *final(line)) == attr_scan(chars_view(words@), *old(it) as int, *old(line)),
{
    let ghost ws = chars_view(words@);
    let n = words.len();
    while *it < n
        invariant
            n == words@.len(),
            ws == chars_view(words@),
            *old(it) <= *it <= n,
            attr_scan(ws, *old(it) as int, *old(line)) == attr_scan(ws, *it as int, *line),
        decreases n - *it,
    {
        assert(ws[*it as int] == words@[*it as int]@);
        let c = count_char(&words[*it], '\n');
        bump(line, c);
        if crate::text::has_char(&words[*it], ']') {
            return ;
        }
        *it += 1;
    }
}

/// Line `l` of the file, or nothing past its end.
fn line_text(b_content: &Vec<Vec<char>>, l: usize) -> (r: String)
    ensures
        r@ == text_at(chars_view(b_content@), l),
{
    if l < b_content.len() {
        string_of(b_content[l].as_slice())
    } else {
        String::new()
    }
}

/// Whether a word opens a doc comment.
pub open spec fn is_doc_word(w: Seq<char>) -> bool {
    w == "///"@ || w == "///\n"@ || w == "//!"@ || w == "//!\n"@ || w == "/*!"@ || w == "/*!\n"@
        || w == "/**"@ || w == "/**\n"@
}

/// Whether no word from index `from` on opens a doc comment.
pub open spec fn no_doc_words(words: Seq<Seq<char>>) -> bool {
    forall|i: int| 0 <= i < words.len() ==> !is_doc_word(#[trigger] words[i])
}

/// Whether every recorded doc-comment line is a line of the file.
pub open spec fn lines_valid(lines: Seq<usize>, n: nat) -> bool {
    forall|j: int| 0 <= j < lines.len() ==> #[trigger] lines[j] < n
}


} // verus!

verus! {

/// Line `l` of the file, or nothing past its end.
pub open spec fn text_at(b: Seq<Seq<char>>, l: usize) -> Seq<char> {
    if l < b.len() {
        b[l as int]
    } else {
        Seq::empty()
    }
}

/// Line index `l` when it is a line of the file.
pub open spec fn lpush(l: usize, nb: nat) -> Seq<usize> {
    if l < nb {
        seq![l]
    } else {
        Seq::empty()
    }
}

/// A declaration event.
pub open spec fn decl_ev(line: usize, ty: Type, name: Seq<char>) -> (nat, EventView) {
    (line as nat, EventView::Type(seq![NodeView { ty, name, args: Seq::empty() }]))
}

/// The lines `pos..stop` of a block doc comment (those of the file), and
/// their events, all dated at line `evl`.
pub open spec fn block_lines(b: Seq<Seq<char>>, pos: usize, stop: usize, evl: usize, inner: bool) -> (
    Seq<usize>,
    Seq<(nat, EventView)>,
)
    decreases b.len() - pos,
{
    if pos >= stop || pos >= b.len() {
        (Seq::empty(), Seq::empty())
    } else {
        let rest = block_lines(b, (pos + 1) as usize, stop, evl, inner);
        let e = if inner {
            EventView::FileComment(b[pos as int])
        } else {
            EventView::Comment(b[pos as int])
        };
        (seq![pos] + rest.0, seq![(evl as nat, e)] + rest.1)
    }
}

/// `h` without double quotes and `r`s.
pub open spec fn drop_quote_r(h: Seq<char>) -> Seq<char>
    decreases h.len(),
{
    if h.len() == 0 {
        h
    } else if h.last() == '"' || h.last() == 'r' {
        drop_quote_r(h.drop_last())
    } else {
        drop_quote_r(h.drop_last()).push(h.last())
    }
}

/// The word that ends a raw string opened by word `w`: a quote followed by
/// the hashes of its opening.
pub open spec fn raw_limit(w: Seq<char>) -> Seq<char> {
    seq!['"'] + drop_quote_r(w.subrange(0, first_occ(w, 0, seq!['#', '"'])))
}

/// Whether a word is a declaration keyword that names the next word.
pub open spec fn is_keyword(w: Seq<char>) -> bool {
    w == "struct"@ || w == "fn"@ || w == "enum"@ || w == "const"@ || w == "static"@ || w
        == "type"@ || w == "trait"@ || w == "macro_rules!"@ || w == "flags"@
}

/// What one word does to the builder: whether the builder stops there, whether
/// a macro body opens, the new position, line, brace counter and macro flag,
/// and the events and doc-comment lines it adds.
pub ghost struct Step {
    pub ret: bool,
    pub nested: bool,
    pub it: int,
    pub line: usize,
    pub depth: Option<usize>,
    pub wfm: bool,
    pub events: Seq<(nat, EventView)>,
    pub lines: Seq<usize>,
}

pub open spec fn go(
    it: int,
    line: usize,
    depth: Option<usize>,
    wfm: bool,
    events: Seq<(nat, EventView)>,
    lines: Seq<usize>,
) -> Step {
    Step { ret: false, nested: false, it, line, depth, wfm, events, lines }
}

pub open spec fn stop_at(it: int, line: usize, depth: Option<usize>, wfm: bool) -> Step {
    Step { ret: true, nested: false, it, line, depth, wfm, events: Seq::empty(), lines: Seq::empty() }
}

/// The builder's step on word `it` (`ws` the words, `b` the lines of the file).
#[verifier::opaque]
pub open spec fn step_spec(
    ws: Seq<Seq<char>>,
    b: Seq<Seq<char>>,
    it: int,
    line: usize,
    depth: Option<usize>,
    wfm: bool,
) -> Step {
    let w = ws[it];
    let nb = b.len();
    if quote_parity(w, w.len() as int) && !occurs_at(w, 0, "r#"@) {
        let (i2, l2) = string_scan(ws, it + 1, line);
        go(i2, l2, depth, wfm, Seq::empty(), Seq::empty())
    } else if occurs_at(w, 0, "r#"@) {
        let (i2, l2) = move_to_spec(ws, it, raw_limit(w), line, 2);
        go(i2, l2, depth, wfm, Seq::empty(), Seq::empty())
    } else if w == "///"@ || w == "///\n"@ {
        let (i2, l2) = move_to_spec(ws, it, "\n"@, line, 0);
        go(
            i2,
            l2,
            depth,
            wfm,
            seq![(line as nat, EventView::Comment(text_at(b, line)))],
            lpush(line, nb),
        )
    } else if w == "//!"@ || w == "//!\n"@ {
        let (i2, l2) = move_to_spec(ws, it, "\n"@, line, 0);
        let extra = if nb > 0 && line < nb - 1 && b[line + 1].len() == 0 {
            lpush((line + 1) as usize, nb)
        } else {
            Seq::empty()
        };
        go(
            i2,
            l2,
            depth,
            wfm,
            seq![(line as nat, EventView::FileComment(text_at(b, line)))],
            lpush(line, nb) + extra,
        )
    } else if w == "/*!"@ || w == "/*!\n"@ || w == "/**"@ || w == "/**\n"@ {
        let inner = w == "/*!"@ || w == "/*!\n"@;
        let (i2, l2) = block_scan(ws, it, line);
        let stop = if l2 < usize::MAX {
            (l2 + 1) as usize
        } else {
            l2
        };
        let (bl, be) = block_lines(b, line, stop, stop, inner);
        let removed = inner && nb > 0 && l2 < nb - 1 && b[l2 + 1].len() == 0;
        go(
            i2,
            l2,
            depth,
            wfm,
            be,
            bl + if removed {
                lpush((l2 + 1) as usize, nb)
            } else {
                Seq::empty()
            },
        )
    } else if w == "use"@ || w == "mod"@ {
        if it + 1 >= ws.len() {
            stop_at(it, line, depth, wfm)
        } else if nb > 0 && line < nb - 1 && ends_with_spec(b[line as int], seq![':', ':', '{']) {
            let (i2, l2) = move_to_spec(ws, it, "\n"@, line, 0);
            let name = if nb > 0 && l2 < nb - 1 {
                ws[it + 1] + trim_spec(b[l2 + 1])
            } else {
                ws[it + 1]
            };
            go(i2, l2, depth, wfm, seq![decl_ev(l2, type_from_spec(w), name)], Seq::empty())
        } else {
            go(it, line, depth, wfm, seq![decl_ev(line, type_from_spec(w), ws[it + 1])], Seq::empty())
        }
    } else if is_keyword(w) {
        if it + 1 >= ws.len() {
            stop_at(it, line, depth, wfm)
        } else {
            go(
                it + 1,
                line,
                depth,
                w == "macro_rules!"@,
                seq![
                    decl_ev(
                        line,
                        type_from_spec(w),
                        ws[it + 1].subrange(0, first_stop(ws[it + 1], 0)),
                    ),
                ],
                Seq::empty(),
            )
        }
    } else if w == "!!"@ {
        let prev = if it > 0 {
            ws[it - 1]
        } else {
            Seq::empty()
        };
        let next = if it + 1 < ws.len() {
            ws[it + 1]
        } else {
            Seq::empty()
        };
        let i1 = if it + 1 < ws.len() {
            it + 1
        } else {
            it
        };
        let (i2, l2) = if i1 < ws.len() && quote_parity(ws[i1], ws[i1].len() as int) {
            string_scan(ws, i1 + 1, line)
        } else {
            (i1, line)
        };
        go(i2, l2, depth, wfm, seq![decl_ev(line, Type::Macro, prev + seq!['!'] + next)], Seq::empty())
    } else if w == "!?"@ {
        let prev = if it > 0 {
            ws[it - 1]
        } else {
            Seq::empty()
        };
        go(it, line, depth, wfm, seq![decl_ev(line, Type::Macro, prev + seq!['!'])], Seq::empty())
    } else if w == "impl"@ || occurs_at(w, 0, "impl<"@) {
        let (i2, l2, parts) = impl_scan(ws, it, line, Seq::empty());
        go(i2, l2, depth, wfm, seq![decl_ev(l2, Type::Impl, join_spec(parts, seq![' ']))], Seq::empty())
    } else if w == "{"@ || w == "{\n"@ {
        let d2 = match depth {
            Some(c) => Some(
                if c < usize::MAX {
                    (c + 1) as usize
                } else {
                    c
                },
            ),
            None => None,
        };
        Step {
            ret: false,
            nested: wfm,
            it,
            line,
            depth: d2,
            wfm: false,
            events: seq![(line as nat, EventView::InScope)],
            lines: Seq::empty(),
        }
    } else if w == "}"@ || w == "}\n"@ {
        if depth is Some && depth->0 <= 1 {
            stop_at(it, line, depth, wfm)
        } else {
            go(
                it,
                if w == "}\n"@ {
                    bump_spec(line, 1)
                } else {
                    line
                },
                match depth {
                    Some(c) => Some((c - 1) as usize),
                    None => None,
                },
                wfm,
                seq![(line as nat, EventView::OutScope)],
                Seq::empty(),
            )
        }
    } else if w == "\n"@ {
        go(it, bump_spec(line, 1), depth, wfm, Seq::empty(), Seq::empty())
    } else if occurs_at(w, 0, "#["@) || occurs_at(w, 0, "#!["@) {
        let (i2, l2) = attr_scan(ws, it, line);
        go(i2, bump_spec(l2, count_spec(w, '\n') as int), depth, wfm, Seq::empty(), Seq::empty())
    } else {
        go(
            it,
            bump_spec(line, count_spec(w, '\n') as int),
            depth,
            wfm,
            seq![decl_ev(line, Type::Unknown, without_stops(w))],
            Seq::empty(),
        )
    }
}

/// What the builder gives from word `it` on: where it stops, its line
/// counter, and the events and doc-comment lines it adds.
pub ghost struct Built {
    pub it: int,
    pub line: usize,
    pub events: Seq<(nat, EventView)>,
    pub lines: Seq<usize>,
}

pub open spec fn nest_rank(depth: Option<usize>, wfm: bool) -> int {
    if depth is None {
        2
    } else if wfm {
        1
    } else {
        0
    }
}

/// The builder run from word `it`: step after step; at a macro definition's
/// opening brace its body is read by a builder of its own, whose events are
/// dropped, and that stops at the brace that closes it.
pub open spec fn build_spec(
    ws: Seq<Seq<char>>,
    b: Seq<Seq<char>>,
    it: int,
    line: usize,
    depth: Option<usize>,
    wfm: bool,
) -> Built
    decreases ws.len() + 1 - it, nest_rank(depth, wfm),
{
    if it < 0 || it >= ws.len() {
        Built { it, line, events: Seq::empty(), lines: Seq::empty() }
    } else {
        let st = step_spec(ws, b, it, line, depth, wfm);
        if st.ret {
            Built { it: st.it, line: st.line, events: st.events, lines: st.lines }
        } else {
            let (i2, l2) = if st.nested && st.it == it && nest_rank(Some(1), false) < nest_rank(
                depth,
                wfm,
            ) {
                let r = build_spec(ws, b, st.it, st.line, Some(1), false);
                (r.it, r.line)
            } else {
                (st.it, st.line)
            };
            if i2 >= ws.len() || i2 < it {
                Built { it: i2, line: l2, events: st.events, lines: st.lines }
            } else {
                let rest = build_spec(ws, b, i2 + 1, l2, st.depth, st.wfm);
                Built {
                    it: rest.it,
                    line: rest.line,
                    events: st.events + rest.events,
                    lines: st.lines + rest.lines,
                }
            }
        }
    }
}

} // verus!

verus! {

/// The builder's step, as computed.
pub struct StepOut {
    pub ret: bool,
    pub nested: bool,
    pub it: usize,
    pub line: usize,
    pub depth: Option<usize>,
    pub wfm: bool,
    pub events: Vec<EventInfo>,
    pub lines: Vec<usize>,
}

impl View for StepOut {
    type V = Step;

    open spec fn view(&self) -> Step {
        Step {
            ret: self.ret,
            nested: self.nested,
            it: self.it as int,
            line: self.line,
            depth: self.depth,
            wfm: self.wfm,
            events: events_view(self.events@),
            lines: self.lines@,
        }
    }
}

/// Pushes one event.
fn push_event(events: &mut Vec<EventInfo>, line: usize, e: EventType)
    ensures
        events_view(final(events)@) == events_view(old(events)@).push((line as nat, e@)),
{
    events.push(EventInfo::new(line, e));
    assert(events_view(final(events)@) =~= events_view(old(events)@).push((line as nat, e@)));
}

/// The lines of a block doc comment and their events.
fn block_comment_lines(
    b_content: &Vec<Vec<char>>,
    mark: usize,
    stop: usize,
    inner: bool,
    events: &mut Vec<EventInfo>,
    lines: &mut Vec<usize>,
)
    ensures
        final(lines)@ == old(lines)@ + block_lines(chars_view(b_content@), mark, stop, stop, inner).0,
        events_view(final(events)@) == events_view(old(events)@) + block_lines(
            chars_view(b_content@),
            mark,
            stop,
            stop,
            inner,
        ).1,
{
    let ghost bv = chars_view(b_content@);
    let nb = b_content.len();
    let mut pos = mark;
    while pos < stop && pos < nb
        invariant
            nb == b_content@.len(),
            bv == chars_view(b_content@),
            old(lines)@ + block_lines(bv, mark, stop, stop, inner).0 == lines@ + block_lines(
                bv,
                pos,
                stop,
                stop,
                inner,
            ).0,
            events_view(old(events)@) + block_lines(bv, mark, stop, stop, inner).1 == events_view(
                events@,
            ) + block_lines(bv, pos, stop, stop, inner).1,
        decreases nb - pos,
    {
        let ghost rest = block_lines(bv, (pos + 1) as usize, stop, stop, inner);
        let ghost l0 = lines@;
        let ghost e0 = events_view(events@);
        lines.push(pos);
        let text = string_of(b_content[pos].as_slice());
        assert(text@ == bv[pos as int]);
        if inner {
            push_event(events, stop, EventType::FileComment(text));
        } else {
            push_event(events, stop, EventType::Comment(text));
        }
        pos += 1;
        assert(l0 + (seq![(pos - 1) as usize] + rest.0) =~= lines@ + rest.0);
        assert(e0 + (seq![events_view(events@).last()] + rest.1) =~= events_view(events@) + rest.1);
    }
}

/// The builder's step on word `it`.
#[verifier::rlimit(100)]
pub fn build_step(
    words: &Vec<Vec<char>>,
    b_content: &Vec<Vec<char>>,
    it: usize,
    line: usize,
    depth: Option<usize>,
    wfm: bool,
) -> (r: StepOut)
    requires
        it < words@.len(),
    ensures
        r@ == step_spec(chars_view(words@), chars_view(b_content@), it as int, line, depth, wfm),
        r.it <= words@.len(),
        r.it >= it,
        r.nested ==> r.it == it && wfm,
        r.depth is None <==> depth is None,
{
    reveal(step_spec);
    let ghost ws = chars_view(words@);
    let ghost bv = chars_view(b_content@);
    let n = words.len();
    let nb = b_content.len();
    let w = &words[it];
    assert(ws[it as int] == w@);
    let mut i = it;
    let mut l = line;
    let mut events: Vec<EventInfo> = Vec::new();
    let mut lines: Vec<usize> = Vec::new();
    let mut d = depth;
    let mut m = wfm;
    let mut ret = false;
    let mut nested = false;
    let nl = vec!['\n'];
    assert(events_view(events@) =~= Seq::<(nat, EventView)>::empty());
    assert(lines@ =~= Seq::<usize>::empty());
    proof {
        reveal_strlit("\n");
    }
    assert(nl@ =~= "\n"@);
    if odd_quotes(w) && !word_starts(w, "r#") {
        skip_string(words, &mut i, &mut l);
        assert(Step { ret, nested, it: i as int, line: l, depth: d, wfm: m, events: events_view(events@), lines: lines@ } == step_spec(ws, bv, it as int, line, depth, wfm));
    } else if word_starts(w, "r#") {
        let sep = vec!['#', '"'];
        assert(sep@ =~= seq!['#', '"']);
        let p = crate::lexer::first_occ_from(w, 0, &sep);
        let head = slice(w, 0, p);
        let mut limit: Vec<char> = vec!['"'];
        let mut k: usize = 0;
        assert(limit@ =~= seq!['"'] + drop_quote_r(head@.subrange(0, 0)));
        while k < head.len()
            invariant
                k <= head@.len(),
                limit@ == seq!['"'] + drop_quote_r(head@.subrange(0, k as int)),
            decreases head@.len() - k,
        {
            assert(head@.subrange(0, k + 1).drop_last() =~= head@.subrange(0, k as int));
            if head[k] != '"' && head[k] != 'r' {
                limit.push(head[k]);
            }
            k += 1;
            assert(limit@ =~= seq!['"'] + drop_quote_r(head@.subrange(0, k as int)));
        }
        assert(head@.subrange(0, k as int) =~= head@);
        move_to(words, &mut i, &limit, &mut l, 2);
        assert(Step { ret, nested, it: i as int, line: l, depth: d, wfm: m, events: events_view(events@), lines: lines@ } == step_spec(ws, bv, it as int, line, depth, wfm));
    } else if word_is(w, "///") || word_is(w, "///\n") {
        let text = line_text(b_content, line);
        if line < nb {
            lines.push(line);
        }
        assert(lines@ =~= lpush(line, nb as nat));
        push_event(&mut events, line, EventType::Comment(text));
        move_to(words, &mut i, &nl, &mut l, 0);
        assert(Step { ret, nested, it: i as int, line: l, depth: d, wfm: m, events: events_view(events@), lines: lines@ } == step_spec(ws, bv, it as int, line, depth, wfm));
    } else if word_is(w, "//!") || word_is(w, "//!\n") {
        let text = line_text(b_content, line);
        if line < nb {
            lines.push(line);
        }
        assert(lines@ =~= lpush(line, nb as nat));
        push_event(&mut events, line, EventType::FileComment(text));
        if nb > 0 && line < nb - 1 && b_content[line + 1].len() == 0 {
            let ghost l0 = lines@;
            if line + 1 < nb {
                lines.push(line + 1);
            }
            assert(lines@ =~= l0 + lpush((line + 1) as usize, nb as nat));
        } else {
            assert(lines@ =~= lines@ + Seq::<usize>::empty());
        }
        move_to(words, &mut i, &nl, &mut l, 0);
        assert(Step { ret, nested, it: i as int, line: l, depth: d, wfm: m, events: events_view(events@), lines: lines@ } == step_spec(ws, bv, it as int, line, depth, wfm));
    } else if word_is(w, "/*!") || word_is(w, "/*!\n") || word_is(w, "/**") || word_is(
        w,
        "/**\n",
    ) {
        let inner = word_is(w, "/*!") || word_is(w, "/*!\n");
        move_until(words, &mut i, &mut l);
        let stop = if l < usize::MAX {
            l + 1
        } else {
            l
        };
        block_comment_lines(b_content, line, stop, inner, &mut events, &mut lines);
        let ghost blk = block_lines(bv, line, stop, stop, inner);
        assert(lines@ =~= blk.0);
        assert(events_view(events@) =~= blk.1);
        let removed = inner && nb > 0 && l < nb - 1 && b_content[l + 1].len() == 0;
        assert(nb > 0 && l < nb - 1 ==> bv[l + 1] == b_content@[l + 1]@);
        let ghost l1 = lines@;
        if removed {
            if l + 1 < nb {
                lines.push(l + 1);
            }
            assert(lines@ =~= l1 + lpush((l + 1) as usize, nb as nat));
        } else {
            assert(lines@ =~= l1 + Seq::<usize>::empty());
        }
        assert(Step { ret, nested, it: i as int, line: l, depth: d, wfm: m, events: events_view(events@), lines: lines@ } == step_spec(ws, bv, it as int, line, depth, wfm));
    } else if word_is(w, "use") || word_is(w, "mod") {
        if it + 1 >= n {
            ret = true;
        } else {
            let ty = type_from_chars(w);
            assert(ws[it + 1] == words@[it + 1]@);
            let mut name = slice(&words[it + 1], 0, words[it + 1].len());
            assert(name@ =~= ws[it + 1]);
            let tail = vec![':', ':', '{'];
            assert(tail@ =~= seq![':', ':', '{']);
            if nb > 0 && line < nb - 1 && ends_with(&b_content[line], &tail) {
                assert(bv[line as int] == b_content@[line as int]@);
                move_to(words, &mut i, &nl, &mut l, 0);
                if nb > 0 && l < nb - 1 {
                    assert(bv[l + 1] == b_content@[l + 1]@);
                    push_all(&mut name, &trim(&b_content[l + 1]));
                }
            } else {
                assert(line < nb - 1 ==> bv[line as int] == b_content@[line as int]@);
            }
            push_type(&mut events, l, ty, &name);
        }
        assert(Step { ret, nested, it: i as int, line: l, depth: d, wfm: m, events: events_view(events@), lines: lines@ } == step_spec(ws, bv, it as int, line, depth, wfm));
    } else if word_is(w, "struct") || word_is(w, "fn") || word_is(w, "enum") || word_is(
        w,
        "const",
    ) || word_is(w, "static") || word_is(w, "type") || word_is(w, "trait") || word_is(
        w,
        "macro_rules!",
    ) || word_is(w, "flags") {
        if it + 1 >= n {
            ret = true;
        } else {
            let ty = type_from_chars(w);
            assert(ws[it + 1] == words@[it + 1]@);
            push_type(&mut events, line, ty, &get_before(&words[it + 1]));
            m = word_is(w, "macro_rules!");
            i = it + 1;
        }
        assert(Step { ret, nested, it: i as int, line: l, depth: d, wfm: m, events: events_view(events@), lines: lines@ } == step_spec(ws, bv, it as int, line, depth, wfm));
    } else if word_is(w, "!!") {
        let ghost prev = if it > 0 {
            ws[it - 1]
        } else {
            Seq::empty()
        };
        let ghost next = if it + 1 < n {
            ws[it + 1]
        } else {
            Seq::empty()
        };
        let mut name: Vec<char> = Vec::new();
        if it > 0 {
            assert(ws[it - 1] == words@[it - 1]@);
            push_all(&mut name, &words[it - 1]);
        }
        assert(name@ =~= prev);
        name.push('!');
        assert(name@ =~= prev + seq!['!']);
        if it + 1 < n {
            assert(ws[it + 1] == words@[it + 1]@);
            push_all(&mut name, &words[it + 1]);
            i = it + 1;
        }
        assert(name@ =~= prev + seq!['!'] + next);
        push_type(&mut events, line, Type::Macro, &name);
        if i < n && odd_quotes(&words[i]) {
            assert(ws[i as int] == words@[i as int]@);
            skip_string(words, &mut i, &mut l);
        } else {
            assert(i < n ==> ws[i as int] == words@[i as int]@);
        }
        assert(Step { ret, nested, it: i as int, line: l, depth: d, wfm: m, events: events_view(events@), lines: lines@ } == step_spec(ws, bv, it as int, line, depth, wfm));
    } else if word_is(w, "!?") {
        let ghost prev = if it > 0 {
            ws[it - 1]
        } else {
            Seq::empty()
        };
        let mut name: Vec<char> = Vec::new();
        if it > 0 {
            assert(ws[it - 1] == words@[it - 1]@);
            push_all(&mut name, &words[it - 1]);
        }
        assert(name@ =~= prev);
        name.push('!');
        assert(name@ =~= prev + seq!['!']);
        push_type(&mut events, line, Type::Macro, &name);
        assert(Step { ret, nested, it: i as int, line: l, depth: d, wfm: m, events: events_view(events@), lines: lines@ } == step_spec(ws, bv, it as int, line, depth, wfm));
    } else if word_is(w, "impl") || word_starts(w, "impl<") {
        let parts = get_impl(words, &mut i, &mut l);
        let space = vec![' '];
        assert(space@ =~= seq![' ']);
        push_type(&mut events, l, Type::Impl, &join_chars(&parts, &space));
        assert(Step { ret, nested, it: i as int, line: l, depth: d, wfm: m, events: events_view(events@), lines: lines@ } == step_spec(ws, bv, it as int, line, depth, wfm));
    } else if word_is(w, "{") || word_is(w, "{\n") {
        if let Some(c) = depth {
            if c < usize::MAX {
                d = Some(c + 1);
            }
        }
        push_event(&mut events, line, EventType::InScope);
        nested = wfm;
        m = false;
        assert(Step { ret, nested, it: i as int, line: l, depth: d, wfm: m, events: events_view(events@), lines: lines@ } == step_spec(ws, bv, it as int, line, depth, wfm));
    } else if word_is(w, "}") || word_is(w, "}\n") {
        let mut closes = false;
        if let Some(c) = depth {
            if c <= 1 {
                closes = true;
            } else {
                d = Some(c - 1);
            }
        }
        if closes {
            ret = true;
        } else {
            push_event(&mut events, line, EventType::OutScope);
            if word_is(w, "}\n") {
                bump(&mut l, 1);
            }
        }
        assert(Step { ret, nested, it: i as int, line: l, depth: d, wfm: m, events: events_view(events@), lines: lines@ } == step_spec(ws, bv, it as int, line, depth, wfm));
    } else if word_is(w, "\n") {
        bump(&mut l, 1);
        assert(Step { ret, nested, it: i as int, line: l, depth: d, wfm: m, events: events_view(events@), lines: lines@ } == step_spec(ws, bv, it as int, line, depth, wfm));
    } else if word_starts(w, "#[") || word_starts(w, "#![") {
        let first_breaks = count_char(w, '\n');
        skip_attribute(words, &mut i, &mut l);
        bump(&mut l, first_breaks);
    } else {
        let name = remove_stop_chars(w);
        push_type(&mut events, line, Type::Unknown, &name);
        let c = count_char(w, '\n');
        bump(&mut l, c);
        assert(Step { ret, nested, it: i as int, line: l, depth: d, wfm: m, events: events_view(events@), lines: lines@ } == step_spec(ws, bv, it as int, line, depth, wfm));
    }
    let r = StepOut { ret, nested, it: i, line: l, depth: d, wfm: m, events, lines };
    r
}

} // verus!

verus! {

/// Pushes one declaration event.
fn push_type(event_list: &mut Vec<EventInfo>, line: usize, ty: Type, name: &Vec<char>)
    ensures
        final(event_list)@.len() == old(event_list)@.len() + 1,
        final(event_list)@.subrange(0, old(event_list)@.len() as int) == old(event_list)@,
        events_view(final(event_list)@) == events_view(old(event_list)@).push(decl_ev(line, ty, name@)),
{
    event_list.push(EventInfo::new(line, EventType::Type(TypeStruct::from_chars(ty, name))));
    assert(final(event_list)@.subrange(0, old(event_list)@.len() as int) =~= old(event_list)@);
    assert(events_view(final(event_list)@) =~= events_view(old(event_list)@).push(decl_ev(line, ty, name@)));
}

/// Reads words from `*it` on and appends the events they make, as
/// `build_spec` says. With a brace counter it reads a macro definition's body
/// and stops at the brace that closes it.
pub fn build_event_inner(
    it: &mut usize,
    line: &mut usize,
    words: &Vec<Vec<char>>,
    event_list: &mut Vec<EventInfo>,
    comment_lines: &mut Vec<usize>,
    b_content: &Vec<Vec<char>>,
    par_count: Option<usize>,
)
    requires
        *old(it) <= words@.len(),
        lines_valid(old(comment_lines)@, b_content@.len()),
    ensures
        ({
            let r = build_spec(
                chars_view(words@),
                chars_view(b_content@),
                *old(it) as int,
                *old(line),
                par_count,
                false,
            );
            &&& *final(it) as int == r.it
            &&& *final(line) == r.line
            &&& events_view(final(event_list)@) == events_view(old(event_list)@) + r.events
            &&& final(comment_lines)@ == old(comment_lines)@ + r.lines
        }),
        *old(it) <= *final(it) <= words@.len(),
        lines_valid(final(comment_lines)@, b_content@.len()),
        no_doc_words(chars_view(words@)) ==> final(comment_lines)@ == old(comment_lines)@,
    decreases words@.len() - *old(it), if par_count is None {
        1int
    } else {
        0int
    },
{
    let ghost ws = chars_view(words@);
    let ghost bv = chars_view(b_content@);
    let ghost entry: usize = *it;
    let ghost line0: usize = *line;
    let ghost ev0 = events_view(event_list@);
    let ghost cl0 = comment_lines@;
    let n = words.len();
    let nb = b_content.len();
    let mut depth = par_count;
    let mut waiting_for_macro = false;
    assert(ev0 + Seq::<(nat, EventView)>::empty() =~= ev0);
    assert(cl0 + Seq::<usize>::empty() =~= cl0);
    while *it < n
        invariant
            n == words@.len(),
            nb == b_content@.len(),
            ws == chars_view(words@),
            bv == chars_view(b_content@),
            entry == *old(it),
            line0 == *old(line),
            ev0 == events_view(old(event_list)@),
            cl0 == old(comment_lines)@,
            entry <= *it <= n,
            waiting_for_macro ==> entry < *it,
            depth is None <==> par_count is None,
            lines_valid(comment_lines@, nb as nat),
            no_doc_words(ws) ==> comment_lines@ == cl0,
            ({
                let whole = build_spec(ws, bv, entry as int, line0, par_count, false);
                let here = build_spec(ws, bv, *it as int, *line, depth, waiting_for_macro);
                &&& whole.it == here.it
                &&& whole.line == here.line
                &&& ev0 + whole.events == events_view(event_list@) + here.events
                &&& cl0 + whole.lines == comment_lines@ + here.lines
            }),
        decreases n + 1 - *it,
    {
        let ghost here = build_spec(ws, bv, *it as int, *line, depth, waiting_for_macro);
        let ghost ev_before = events_view(event_list@);
        let ghost cl_before = comment_lines@;
        let st = build_step(words, b_content, *it, *line, depth, waiting_for_macro);
        let ghost stv = st@;
        proof {
            lemma_step_lines_valid(ws, bv, *it as int, *line, depth, waiting_for_macro);
            if no_doc_words(ws) {
                assert(!is_doc_word(ws[*it as int]));
            }
        }
        let StepOut { ret, nested, it: next_it, line: next_line, depth: next_depth, wfm, events, lines } = st;
        let mut events = events;
        let mut lines = lines;
        event_list.append(&mut events);
        comment_lines.append(&mut lines);
        assert(events_view(event_list@) =~= ev_before + stv.events);
        assert(comment_lines@ =~= cl_before + stv.lines);
        if ret {
            *it = next_it;
            *line = next_line;
            assert(ev_before + here.events =~= events_view(event_list@));
            assert(cl_before + here.lines =~= comment_lines@);
            return ;
        }
        let ghost it_here = *it;
        *it = next_it;
        *line = next_line;
        depth = next_depth;
        waiting_for_macro = wfm;
        if nested {
            build_event_inner(it, line, words, &mut Vec::new(), &mut Vec::new(), b_content, Some(1));
        }
        if *it >= n {
            assert(ev_before + here.events =~= events_view(event_list@));
            assert(cl_before + here.lines =~= comment_lines@);
            return ;
        }
        *it += 1;
        proof {
            let rest = build_spec(ws, bv, *it as int, *line, depth, waiting_for_macro);
            assert(here.events =~= stv.events + rest.events);
            assert(ev_before + here.events =~= events_view(event_list@) + rest.events);
            assert(cl_before + here.lines =~= comment_lines@ + rest.lines);
        }
    }
    assert(events_view(event_list@) + Seq::<(nat, EventView)>::empty() =~= events_view(event_list@));
    assert(comment_lines@ + Seq::<usize>::empty() =~= comment_lines@);
}

/// A step adds only lines of the file, and none when its word opens no doc comment.
pub proof fn lemma_step_lines_valid(
    ws: Seq<Seq<char>>,
    b: Seq<Seq<char>>,
    it: int,
    line: usize,
    depth: Option<usize>,
    wfm: bool,
)
    requires
        0 <= it < ws.len(),
    ensures
        lines_valid(step_spec(ws, b, it, line, depth, wfm).lines, b.len()),
        !is_doc_word(ws[it]) ==> step_spec(ws, b, it, line, depth, wfm).lines.len() == 0,
{
    reveal(step_spec);
    let w = ws[it];
    if w == "/*!"@ || w == "/*!\n"@ || w == "/**"@ || w == "/**\n"@ {
        let (i2, l2) = block_scan(ws, it, line);
        let stop = if l2 < usize::MAX {
            (l2 + 1) as usize
        } else {
            l2
        };
        lemma_block_lines_valid(b, line, stop, stop, w == "/*!"@ || w == "/*!\n"@);
    }
}

pub proof fn lemma_block_lines_valid(b: Seq<Seq<char>>, pos: usize, stop: usize, evl: usize, inner: bool)
    ensures
        lines_valid(block_lines(b, pos, stop, evl, inner).0, b.len()),
    decreases b.len() - pos,
{
    if pos < stop && pos < b.len() {
        lemma_block_lines_valid(b, (pos + 1) as usize, stop, evl, inner);
        let rest = block_lines(b, (pos + 1) as usize, stop, evl, inner);
        assert forall|j: int| 0 <= j < (seq![pos] + rest.0).len() implies #[trigger] (seq![pos]
            + rest.0)[j] < b.len() by {
            if j > 0 {
                assert((seq![pos] + rest.0)[j] == rest.0[j - 1]);
            }
        }
    }
}

} // verus!

verus! {

/// The current scope and the waiting declaration after the first `k` events:
/// a declaration other than a bare word waits for the next opening brace,
/// which enters it; a closing brace goes back to the parent.
pub open spec fn walk_state(ev: Seq<(nat, EventView)>, k: int) -> (
    Option<Seq<NodeView>>,
    Option<Seq<NodeView>>,
)
    decreases k,
{
    if k <= 0 || k > ev.len() {
        (None, None)
    } else {
        let (cur, wait) = walk_state(ev, k - 1);
        match ev[k - 1].1 {
            EventView::Type(t) => if t.len() > 0 && t.last().ty != Type::Unknown {
                (cur, Some(t))
            } else {
                (cur, wait)
            },
            EventView::InScope => (scope_in(cur, wait), None),
            EventView::OutScope => (scope_out(cur), None),
            _ => (cur, wait),
        }
    }
}

/// Whether a scope is a struct or an enum body, whose bare words are fields
/// or variants.
pub open spec fn in_fields(cur: Option<Seq<NodeView>>) -> bool {
    match cur {
        Some(c) => c.len() > 0 && (c.last().ty == Type::Struct || c.last().ty == Type::Enum),
        None => false,
    }
}

/// Whether event `k` is a bare word outside a struct or enum body.
pub open spec fn dropped(ev: Seq<(nat, EventView)>, k: int) -> bool {
    match ev[k].1 {
        EventView::Type(t) => t.len() > 0 && t.last().ty == Type::Unknown && !in_fields(
            walk_state(ev, k).0,
        ),
        _ => false,
    }
}

/// The first `n` events without the dropped ones.
pub open spec fn clear_spec(ev: Seq<(nat, EventView)>, n: int) -> Seq<(nat, EventView)>
    decreases n,
{
    if n <= 0 || n > ev.len() {
        Seq::empty()
    } else {
        let rest = clear_spec(ev, n - 1);
        if dropped(ev, n - 1) {
            rest
        } else {
            rest.push(ev[n - 1])
        }
    }
}

/// Drops the bare words that cannot be fields or variants.
pub fn clear_events(events: Vec<EventInfo>) -> (r: Vec<EventInfo>)
    ensures
        events_view(r@) == clear_spec(events_view(events@), events@.len() as int),
{
    let ghost ev = events_view(events@);
    let mut current: Option<TypeStruct> = None;
    let mut waiting_type: Option<TypeStruct> = None;
    let mut r: Vec<EventInfo> = Vec::new();
    let mut it: usize = 0;
    while it < events.len()
        invariant
            it <= events@.len(),
            ev == events_view(events@),
            opt_view(current) == walk_state(ev, it as int).0,
            opt_view(waiting_type) == walk_state(ev, it as int).1,
            events_view(r@) == clear_spec(ev, it as int),
        decreases events@.len() - it,
    {
        let e = &events[it];
        let drop = match &e.event {
            EventType::Type(t) => {
                if t.ty != Type::Unknown {
                    waiting_type = Some(t.duplicate());
                    false
                } else {
                    match &current {
                        Some(c) => !(c.ty == Type::Struct || c.ty == Type::Enum),
                        None => true,
                    }
                }
            },
            EventType::InScope => {
                current = add_to_type_scope(&current, &waiting_type);
                waiting_type = None;
                false
            },
            EventType::OutScope => {
                current = type_out_scope(&current);
                waiting_type = None;
                false
            },
            _ => false,
        };
        assert(drop == dropped(ev, it as int));
        if !drop {
            r.push(e.duplicate());
        }
        it += 1;
        assert(events_view(r@) =~= clear_spec(ev, it as int));
    }
    r
}

/// What scanning a file gives, as values: its events, the lines that hold
/// doc comments, and its lines.
pub ghost struct ScanView {
    pub events: Seq<(nat, EventView)>,
    pub comment_lines: Seq<usize>,
    pub lines: Seq<Seq<char>>,
}

/// The scan of a file's text: its lines; its scanned words read by the event
/// builder; the bare words that cannot be fields or variants dropped.
pub open spec fn scan_spec(content: Seq<char>) -> ScanView {
    let ws = words_spec(clean_from(content, 0));
    let b = split_spec(content, '\n');
    let r = build_spec(ws, b, 0, 0, None, false);
    ScanView {
        events: clear_spec(r.events, r.events.len() as int),
        comment_lines: r.lines,
        lines: b,
    }
}

/// A scan result as values.
pub open spec fn parse_view(pr: ParseResult) -> ScanView {
    ScanView {
        events: events_view(pr.event_list@),
        comment_lines: pr.comment_lines@,
        lines: pr.original_content@.map_values(|s: String| s@),
    }
}

/// Scans one file's text: its lines, its events and the lines that hold doc
/// comments to be removed.
pub fn build_event_list(content: &str) -> (r: ParseResult)
    ensures
        parse_view(r) == scan_spec(content@),
        r.original_content@.map_values(|s: String| s@) == split_spec(content@, '\n'),
        lines_valid(r.comment_lines@, r.original_content@.len()),
        no_doc_words(words_spec(clean_from(content@, 0))) ==> r.comment_lines@.len() == 0,
{
    let s = chars_of(content);
    let cleaned = clean_input(&s);
    let b_content = split_char(&s, '\n');
    let words = words_of(&cleaned);
    let mut it: usize = 0;
    let mut line: usize = 0;
    let mut event_list: Vec<EventInfo> = Vec::new();
    let mut comment_lines: Vec<usize> = Vec::new();
    assert(events_view(event_list@) =~= Seq::<(nat, EventView)>::empty());
    assert(comment_lines@ =~= Seq::<usize>::empty());
    build_event_inner(
        &mut it,
        &mut line,
        &words,
        &mut event_list,
        &mut comment_lines,
        &b_content,
        None,
    );
    assert(chars_view(words@) == words@.map_values(|v: Vec<char>| v@));
    assert(chars_view(b_content@) == b_content@.map_values(|v: Vec<char>| v@));
    assert(events_view(event_list@) =~= Seq::<(nat, EventView)>::empty() + build_spec(
        chars_view(words@),
        chars_view(b_content@),
        0,
        0,
        None,
        false,
    ).events);
    let clear = clear_events(event_list);
    let original_content = lines_to_strings(&b_content);
    assert(original_content@.map_values(|s: String| s@).len() == b_content@.map_values(
        |v: Vec<char>| v@,
    ).len());
    ParseResult { event_list: clear, comment_lines, original_content }
}

/// The lines as strings.
pub fn lines_to_strings(lines: &Vec<Vec<char>>) -> (r: Vec<String>)
    ensures
        r@.map_values(|s: String| s@) == lines@.map_values(|v: Vec<char>| v@),
{
    let mut r: Vec<String> = Vec::new();
    let mut i: usize = 0;
    while i < lines.len()
        invariant
            i <= lines@.len(),
            r@.len() == i,
            forall|j: int| 0 <= j < i ==> #[trigger] r@[j]@ == lines@[j]@,
        decreases lines@.len() - i,
    {
        r.push(string_of(lines[i].as_slice()));
        i += 1;
    }
    assert(r@.map_values(|s: String| s@) =~= lines@.map_values(|v: Vec<char>| v@));
    r
}

} // verus!
