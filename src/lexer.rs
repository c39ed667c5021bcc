//! The scanner: turns source text into space-separated words in which
//! comments, braces and macro calls stand out, and doc comments keep their text.

use vstd::prelude::*;
use crate::text::{
    count_char, count_spec, ends_with, find_from, has_at, occurs_at, push_all, replace,
    replace_spec, seq_eq, slice, starts_with, trim, trim_spec, ends_with_spec, chars_of,
};

verus! {

/// The characters at which a declared name ends.
pub open spec fn is_stop_char(c: char) -> bool {
    c == '\t' || c == '\n' || c == '\r' || c == '<' || c == '{' || c == ':' || c == ';' || c
        == '!' || c == '(' || c == ','
}

pub fn is_stop_character(c: char) -> (r: bool)
    ensures
        r == is_stop_char(c),
{
    c == '\t' || c == '\n' || c == '\r' || c == '<' || c == '{' || c == ':' || c == ';' || c
        == '!' || c == '(' || c == ','
}

/// `s` without any stop character.
pub open spec fn without_stops(s: Seq<char>) -> Seq<char>
    decreases s.len(),
{
    if s.len() == 0 {
        s
    } else if is_stop_char(s.last()) {
        without_stops(s.drop_last())
    } else {
        without_stops(s.drop_last()).push(s.last())
    }
}

/// The index of the first stop character of `s` at or after `i`, or its length.
pub open spec fn first_stop(s: Seq<char>, i: int) -> int
    decreases s.len() - i,
{
    if i >= s.len() {
        s.len() as int
    } else if is_stop_char(s[i]) {
        i
    } else {
        first_stop(s, i + 1)
    }
}

/// `word` with every stop character removed.
pub fn remove_stop_chars(word: &Vec<char>) -> (r: Vec<char>)
    ensures
        r@ == without_stops(word@),
{
    let mut r: Vec<char> = Vec::new();
    let mut i: usize = 0;
    while i < word.len()
        invariant
            i <= word@.len(),
            r@ == without_stops(word@.subrange(0, i as int)),
        decreases word@.len() - i,
    {
        assert(word@.subrange(0, i + 1).drop_last() =~= word@.subrange(0, i as int));
        if !is_stop_character(word[i]) {
            r.push(word[i]);
        }
        i += 1;
    }
    assert(word@.subrange(0, i as int) =~= word@);
    r
}

/// The part of `word` before its first stop character.
pub fn get_before(word: &Vec<char>) -> (r: Vec<char>)
    ensures
        r@ == word@.subrange(0, first_stop(word@, 0)),
{
    let mut i: usize = 0;
    while i < word.len() && !is_stop_character(word[i])
        invariant
            i <= word@.len(),
            first_stop(word@, 0) == first_stop(word@, i as int),
        decreases word@.len() - i,
    {
        i += 1;
    }
    slice(word, 0, i)
}

/// `code` with braces, colons, commas and parentheses set apart by spaces,
/// `::` kept whole, and macro calls `name!(` and `name! {` marked by the words
/// `!!` and `!?`.
pub open spec fn transform_spec(code: Seq<char>) -> Seq<char> {
    let a = replace_spec(code, seq!['{'], seq![' ', '{', ' ']);
    let b = replace_spec(a, seq!['}'], seq![' ', '}', ' ']);
    let c = replace_spec(b, seq![':'], seq![' ', ':', ' ']);
    let d = replace_spec(c, seq![' ', ':', ' ', ' ', ':', ' '], seq![':', ':']);
    let e = replace_spec(d, seq!['*', '/'], seq![' ', '*', '/']);
    let f = replace_spec(e, seq!['\n'], seq![' ', '\n', ' ']);
    let g = replace_spec(f, seq!['!', '('], seq![' ', '!', '!', ' ', '(']);
    let h = replace_spec(g, seq!['!', ' ', ' ', '{'], seq![' ', '!', '?', ' ', '{']);
    let i = replace_spec(h, seq![','], seq![',', ' ']);
    replace_spec(i, seq!['('], seq![' ', '('])
}

pub fn transform_code(code: &Vec<char>) -> (r: Vec<char>)
    ensures
        r@ == transform_spec(code@),
{
    let pat_lbrace = vec!['{'];
    let rep_lbrace = vec![' ', '{', ' '];
    assert(pat_lbrace@ =~= seq!['{'] && rep_lbrace@ =~= seq![' ', '{', ' ']);
    let a = replace(code, &pat_lbrace, &rep_lbrace);
    let pat_rbrace = vec!['}'];
    let rep_rbrace = vec![' ', '}', ' '];
    assert(pat_rbrace@ =~= seq!['}'] && rep_rbrace@ =~= seq![' ', '}', ' ']);
    let b = replace(&a, &pat_rbrace, &rep_rbrace);
    let pat_colon = vec![':'];
    let rep_colon = vec![' ', ':', ' '];
    assert(pat_colon@ =~= seq![':'] && rep_colon@ =~= seq![' ', ':', ' ']);
    let c = replace(&b, &pat_colon, &rep_colon);
    let pat_path_sep = vec![' ', ':', ' ', ' ', ':', ' '];
    let rep_path_sep = vec![':', ':'];
    assert(pat_path_sep@ =~= seq![' ', ':', ' ', ' ', ':', ' '] && rep_path_sep@ =~= seq![':', ':']);
    let d = replace(&c, &pat_path_sep, &rep_path_sep);
    let pat_close = vec!['*', '/'];
    let rep_close = vec![' ', '*', '/'];
    assert(pat_close@ =~= seq!['*', '/'] && rep_close@ =~= seq![' ', '*', '/']);
    let e = replace(&d, &pat_close, &rep_close);
    let pat_newline = vec!['\n'];
    let rep_newline = vec![' ', '\n', ' '];
    assert(pat_newline@ =~= seq!['\n'] && rep_newline@ =~= seq![' ', '\n', ' ']);
    let f = replace(&e, &pat_newline, &rep_newline);
    let pat_call = vec!['!', '('];
    let rep_call = vec![' ', '!', '!', ' ', '('];
    assert(pat_call@ =~= seq!['!', '('] && rep_call@ =~= seq![' ', '!', '!', ' ', '(']);
    let g = replace(&f, &pat_call, &rep_call);
    let pat_block_call = vec!['!', ' ', ' ', '{'];
    let rep_block_call = vec![' ', '!', '?', ' ', '{'];
    assert(pat_block_call@ =~= seq!['!', ' ', ' ', '{'] && rep_block_call@ =~= seq![' ', '!', '?', ' ', '{']);
    let h = replace(&g, &pat_block_call, &rep_block_call);
    let pat_comma = vec![','];
    let rep_comma = vec![',', ' '];
    assert(pat_comma@ =~= seq![','] && rep_comma@ =~= seq![',', ' ']);
    let i = replace(&h, &pat_comma, &rep_comma);
    let pat_paren = vec!['('];
    let rep_paren = vec![' ', '('];
    assert(pat_paren@ =~= seq!['('] && rep_paren@ =~= seq![' ', '(']);
    replace(&i, &pat_paren, &rep_paren)
}

} // verus!

verus! {

pub const IGNORE_NEXT_COMMENT: &'static str = "// rustdoc-stripper-ignore-next";

pub const IGNORE_NEXT_COMMENT_STOP: &'static str = "// rustdoc-stripper-ignore-next-stop";

/// Whether a comment (`//` or `/*`) starts at index `i` of `s`.
pub open spec fn comment_at(s: Seq<char>, i: int) -> bool {
    occurs_at(s, i, seq!['/', '/']) || occurs_at(s, i, seq!['/', '*'])
}

/// The first index at or after `i` where a comment starts, or the length of `s`.
pub open spec fn first_comment(s: Seq<char>, i: int) -> int
    decreases s.len() - i,
{
    if i >= s.len() {
        s.len() as int
    } else if comment_at(s, i) {
        i
    } else {
        first_comment(s, i + 1)
    }
}

/// The doc-comment markers, in the order in which they are tried.
pub open spec fn doc_marker(k: int) -> Seq<char> {
    if k == 0 {
        seq!['/', '/', '/']
    } else if k == 1 {
        seq!['/', '*', '!']
    } else if k == 2 {
        seq!['/', '/', '!']
    } else {
        seq!['/', '*', '*']
    }
}

/// Which doc-comment marker, if any, starts at index `i` of `s`.
pub open spec fn doc_kind(s: Seq<char>, i: int) -> Option<int> {
    if occurs_at(s, i, doc_marker(0)) {
        Some(0)
    } else if occurs_at(s, i, doc_marker(1)) {
        Some(1)
    } else if occurs_at(s, i, doc_marker(2)) {
        Some(2)
    } else if occurs_at(s, i, doc_marker(3)) {
        Some(3)
    } else {
        None
    }
}

/// The first index at or after `i` where `p` occurs in `s`, or the length of `s`.
pub open spec fn first_occ(s: Seq<char>, i: int, p: Seq<char>) -> int
    decreases s.len() - i,
{
    if i >= s.len() {
        s.len() as int
    } else if occurs_at(s, i, p) {
        i
    } else {
        first_occ(s, i + 1, p)
    }
}

/// The closing mark of a comment: `*/` for a block, the end of the line otherwise.
pub open spec fn stop_mark(block: bool) -> Seq<char> {
    if block {
        seq!['*', '/']
    } else {
        seq!['\n']
    }
}

/// Where the text of a comment whose body starts at `from` ends, and where the
/// scan goes on: after `*/`, at the line break, or, when the comment is not
/// closed, at the last character of the text.
pub open spec fn comment_end(s: Seq<char>, from: int, block: bool) -> (int, int) {
    let p = first_occ(s, from, stop_mark(block));
    if p < s.len() {
        (p, if block { p + 2 } else { p })
    } else if from < s.len() {
        (s.len() as int, s.len() - 1)
    } else {
        (s.len() as int, s.len() as int)
    }
}

/// The start of the line of `s` that ends at `end`.
pub open spec fn line_start(s: Seq<char>, end: int) -> int
    decreases end,
{
    if end <= 0 {
        0
    } else if s[end - 1] == '\n' {
        end
    } else {
        line_start(s, end - 1)
    }
}

/// Whether the doc comment whose text ends at `end` follows an ignore-next
/// directive: the lines before it are read upward, over other doc-comment
/// lines and over plain block comments, until the directive, its stop form
/// or another line is met.
pub open spec fn ignore_scan(s: Seq<char>, end: int, ignore: bool) -> bool
    decreases end,
{
    let ls = line_start(s, end);
    let line = trim_spec(s.subrange(ls, end));
    if !ignore && !occurs_at(line, 0, seq!['/', '/']) && ends_with_spec(line, seq!['*', '/']) {
        if ls <= 0 || ls > end {
            false
        } else {
            ignore_scan(
                s,
                ls - 1,
                !occurs_at(line, 0, seq!['/', '*', '*']) && !occurs_at(line, 0, seq!['/', '*', '!']),
            )
        }
    } else if (ignore || occurs_at(line, 0, seq!['/', '/'])) && occurs_at(line, 0, seq!['/', '*']) {
        if ls <= 0 || ls > end {
            false
        } else {
            ignore_scan(s, ls - 1, false)
        }
    } else if !ignore && line == IGNORE_NEXT_COMMENT_STOP@ {
        false
    } else if !ignore && line == IGNORE_NEXT_COMMENT@ {
        true
    } else if !ignore && !occurs_at(line, 0, seq!['/', '/', '/']) && !occurs_at(line, 0, seq!['/', '/', '!']) {
        false
    } else if ls <= 0 || ls > end {
        false
    } else {
        ignore_scan(s, ls - 1, ignore)
    }
}

} // verus!

verus! {

/// Three spaced line breaks for each line break that a removed comment held,
/// so that the words keep their line numbers.
pub open spec fn nl_pad(n: nat) -> Seq<char>
    decreases n,
{
    if n == 0 {
        Seq::empty()
    } else {
        nl_pad((n - 1) as nat) + seq![' ', '\n', ' ']
    }
}

/// One step of the scan from `start`: the code before the next comment,
/// transformed, then the comment itself (a doc comment that is not ignored,
/// a closed block one with its closing `*/` as a word of its own) or line
/// breaks in its place; and where the scan goes on.
pub open spec fn clean_step(s: Seq<char>, start: int) -> (Seq<char>, int) {
    let i = first_comment(s, start);
    let before = transform_spec(s.subrange(start, i));
    if i >= s.len() {
        (before, s.len() as int)
    } else {
        match doc_kind(s, i) {
            Some(k) => {
                let (cend, next) = comment_end(s, i + 3, k == 1 || k == 3);
                if !ignore_scan(s, next, false) {
                    (
                        before + doc_marker(k) + seq![' '] + s.subrange(i + 3, cend) + if (k == 1
                            || k == 3) && cend < s.len() {
                            seq![' ', '*', '/']
                        } else {
                            Seq::empty()
                        },
                        next,
                    )
                } else {
                    (before + nl_pad(count_spec(s.subrange(i + 3, cend), '\n')), next)
                }
            },
            None => {
                let (cend, next) = comment_end(s, i, s[i + 1] == '*');
                (before + nl_pad(count_spec(s.subrange(i, cend), '\n')), next)
            },
        }
    }
}

/// The scanned form of `s` from index `start` on.
pub open spec fn clean_from(s: Seq<char>, start: int) -> Seq<char>
    decreases s.len() - start,
{
    if start < 0 || start >= s.len() {
        Seq::empty()
    } else {
        let (piece, next) = clean_step(s, start);
        if first_comment(s, start) >= s.len() || next <= start || next > s.len() {
            piece
        } else {
            piece + clean_from(s, next)
        }
    }
}

pub fn first_comment_from(s: &Vec<char>, from: usize) -> (r: usize)
    ensures
        r == first_comment(s@, from as int),
        from <= s@.len() ==> from <= r <= s@.len(),
        from > s@.len() ==> r == s@.len(),
{
    let slash = vec!['/', '/'];
    let star = vec!['/', '*'];
    assert(slash@ =~= seq!['/', '/'] && star@ =~= seq!['/', '*']);
    let mut i = from;
    while i < s.len() && !has_at(s, i, &slash) && !has_at(s, i, &star)
        invariant
            from <= i,
            first_comment(s@, from as int) == first_comment(s@, i as int),
            slash@ == seq!['/', '/'],
            star@ == seq!['/', '*'],
        decreases s@.len() - i,
    {
        i += 1;
    }
    if i > s.len() {
        return s.len();
    }
    i
}

pub fn first_occ_from(s: &Vec<char>, from: usize, p: &Vec<char>) -> (r: usize)
    ensures
        r == first_occ(s@, from as int, p@),
        from <= s@.len() ==> from <= r <= s@.len(),
        from > s@.len() ==> r == s@.len(),
{
    let mut i = from;
    while i < s.len() && !has_at(s, i, p)
        invariant
            from <= i,
            first_occ(s@, from as int, p@) == first_occ(s@, i as int, p@),
        decreases s@.len() - i,
    {
        i += 1;
    }
    if i > s.len() {
        return s.len();
    }
    i
}

pub fn doc_marker_chars(k: usize) -> (r: Vec<char>)
    ensures
        r@ == doc_marker(k as int),
{
    let r = if k == 0 {
        vec!['/', '/', '/']
    } else if k == 1 {
        vec!['/', '*', '!']
    } else if k == 2 {
        vec!['/', '/', '!']
    } else {
        vec!['/', '*', '*']
    };
    assert(r@ =~= doc_marker(k as int));
    r
}

pub fn doc_kind_at(s: &Vec<char>, i: usize) -> (r: Option<usize>)
    ensures
        match doc_kind(s@, i as int) {
            Some(k) => r == Some(k as usize),
            None => r is None,
        },
{
    let mut k: usize = 0;
    while k < 4
        invariant
            k <= 4,
            forall|j: int| 0 <= j < k ==> !occurs_at(s@, i as int, #[trigger] doc_marker(j)),
        decreases 4 - k,
    {
        if has_at(s, i, &doc_marker_chars(k)) {
            return Some(k);
        }
        k += 1;
    }
    assert(!occurs_at(s@, i as int, doc_marker(0)));
    assert(!occurs_at(s@, i as int, doc_marker(1)));
    assert(!occurs_at(s@, i as int, doc_marker(2)));
    assert(!occurs_at(s@, i as int, doc_marker(3)));
    None
}

pub fn comment_end_at(s: &Vec<char>, from: usize, block: bool) -> (r: (usize, usize))
    requires
        from <= s@.len(),
    ensures
        r.0 == comment_end(s@, from as int, block).0,
        r.1 == comment_end(s@, from as int, block).1,
        from <= r.0 <= s@.len(),
        r.1 <= s@.len(),
{
    let stop = if block {
        vec!['*', '/']
    } else {
        vec!['\n']
    };
    assert(stop@ =~= stop_mark(block));
    let p = first_occ_from(s, from, &stop);
    if p < s.len() {
        if block {
            assert(occurs_at(s@, p as int, stop@)) by {
                reveal_with_fuel(first_occ, 2);
                lemma_first_occ_found(s@, from as int, stop@);
            }
            (p, p + 2)
        } else {
            (p, p)
        }
    } else if from < s.len() {
        (s.len(), s.len() - 1)
    } else {
        (s.len(), s.len())
    }
}

pub proof fn lemma_first_occ_found(s: Seq<char>, i: int, p: Seq<char>)
    requires
        0 <= i,
        first_occ(s, i, p) < s.len(),
    ensures
        occurs_at(s, first_occ(s, i, p), p),
    decreases s.len() - i,
{
    if i < s.len() && !occurs_at(s, i, p) {
        lemma_first_occ_found(s, i + 1, p);
    }
}

pub fn line_start_at(s: &Vec<char>, end: usize) -> (r: usize)
    requires
        end <= s@.len(),
    ensures
        r == line_start(s@, end as int),
        r <= end,
{
    let mut e = end;
    while e > 0 && s[e - 1] != '\n'
        invariant
            e <= end <= s@.len(),
            line_start(s@, end as int) == line_start(s@, e as int),
        decreases e,
    {
        e -= 1;
    }
    e
}

/// Whether the doc comment whose text ends at `end` is to stay in the source:
/// it follows an ignore-next directive, possibly over other doc-comment lines.
pub fn check_if_should_be_ignored(s: &Vec<char>, end: usize) -> (r: bool)
    requires
        end <= s@.len(),
    ensures
        r == ignore_scan(s@, end as int, false),
{
    let ignore_line = chars_of(IGNORE_NEXT_COMMENT);
    let stop_line = chars_of(IGNORE_NEXT_COMMENT_STOP);
    let dslash = vec!['/', '/'];
    let sstar = vec!['/', '*'];
    let close = vec!['*', '/'];
    let ddoc = vec!['/', '*', '*'];
    let bang = vec!['/', '*', '!'];
    let tri = vec!['/', '/', '/'];
    let inner = vec!['/', '/', '!'];
    assert(dslash@ =~= seq!['/', '/'] && sstar@ =~= seq!['/', '*'] && close@ =~= seq!['*', '/']);
    assert(ddoc@ =~= seq!['/', '*', '*'] && bang@ =~= seq!['/', '*', '!']);
    assert(tri@ =~= seq!['/', '/', '/'] && inner@ =~= seq!['/', '/', '!']);
    let mut e = end;
    let mut ignore = false;
    loop
        invariant
            e <= s@.len(),
            ignore_scan(s@, end as int, false) == ignore_scan(s@, e as int, ignore),
            ignore_line@ == IGNORE_NEXT_COMMENT@,
            stop_line@ == IGNORE_NEXT_COMMENT_STOP@,
            dslash@ == seq!['/', '/'],
            sstar@ == seq!['/', '*'],
            close@ == seq!['*', '/'],
            ddoc@ == seq!['/', '*', '*'],
            bang@ == seq!['/', '*', '!'],
            tri@ == seq!['/', '/', '/'],
            inner@ == seq!['/', '/', '!'],
        decreases e,
    {
        let ls = line_start_at(s, e);
        let line = trim(&slice(s, ls, e));
        let next_ignore;
        if !ignore && !starts_with(&line, &dslash) && ends_with(&line, &close) {
            next_ignore = !starts_with(&line, &ddoc) && !starts_with(&line, &bang);
        } else if (ignore || starts_with(&line, &dslash)) && starts_with(&line, &sstar) {
            next_ignore = false;
        } else if !ignore && seq_eq(&line, &stop_line) {
            return false;
        } else if !ignore && seq_eq(&line, &ignore_line) {
            return true;
        } else if !ignore && !starts_with(&line, &tri) && !starts_with(&line, &inner) {
            return false;
        } else {
            next_ignore = ignore;
        }
        if ls == 0 {
            return false;
        }
        e = ls - 1;
        ignore = next_ignore;
    }
}

} // verus!

verus! {

pub proof fn lemma_first_comment_found(s: Seq<char>, i: int)
    requires
        0 <= i,
        first_comment(s, i) < s.len(),
    ensures
        comment_at(s, first_comment(s, i)),
    decreases s.len() - i,
{
    if i < s.len() && !comment_at(s, i) {
        lemma_first_comment_found(s, i + 1);
    }
}

pub fn push_nl_pad(out: &mut Vec<char>, n: usize)
    ensures
        final(out)@ == old(out)@ + nl_pad(n as nat),
{
    let mut k: usize = 0;
    while k < n
        invariant
            k <= n,
            out@ == old(out)@ + nl_pad(k as nat),
        decreases n - k,
    {
        out.push(' ');
        out.push('\n');
        out.push(' ');
        k += 1;
        assert(out@ =~= old(out)@ + nl_pad(k as nat));
    }
}

/// The source text in the form the event builder reads: code transformed,
/// plain comments and ignored doc comments replaced by line breaks, other
/// doc comments kept with their marker followed by a space.
pub fn clean_input(s: &Vec<char>) -> (r: Vec<char>)
    ensures
        r@ == clean_from(s@, 0),
{
    let mut ret: Vec<char> = Vec::new();
    let mut start: usize = 0;
    while start < s.len()
        invariant
            start <= s@.len(),
            ret@ + clean_from(s@, start as int) == clean_from(s@, 0),
        decreases s@.len() - start,
    {
        let ghost step = clean_step(s@, start as int);
        let i = first_comment_from(s, start);
        let before = transform_code(&slice(s, start, i));
        if i >= s.len() {
            push_all(&mut ret, &before);
            assert(ret@ =~= ret@ + clean_from(s@, s@.len() as int));
            return ret;
        }
        proof {
            lemma_first_comment_found(s@, start as int);
        }
        let mut piece = before;
        let next;
        match doc_kind_at(s, i) {
            Some(k) => {
                let (cend, nx) = comment_end_at(s, i + 3, k == 1 || k == 3);
                next = nx;
                if !check_if_should_be_ignored(s, next) {
                    push_all(&mut piece, &doc_marker_chars(k));
                    piece.push(' ');
                    push_all(&mut piece, &slice(s, i + 3, cend));
                    if (k == 1 || k == 3) && cend < s.len() {
                        piece.push(' ');
                        piece.push('*');
                        piece.push('/');
                    }
                } else {
                    let n = count_char(&slice(s, i + 3, cend), '\n');
                    push_nl_pad(&mut piece, n);
                }
            },
            None => {
                let (cend, nx) = comment_end_at(s, i, s[i + 1] == '*');
                next = nx;
                let n = count_char(&slice(s, i, cend), '\n');
                push_nl_pad(&mut piece, n);
            },
        }
        assert(piece@ =~= step.0);
        assert(next == step.1);
        push_all(&mut ret, &piece);
        if next <= start || next > s.len() {
            return ret;
        }
        start = next;
    }
    ret
}

} // verus!
