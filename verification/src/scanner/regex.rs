//! The lexical candidate extractor: scans file text line by line, tracks
//! block-comment state across lines, and emits tag occurrences with parsed
//! metadata. The tag grammar is the fixed five-word vocabulary, matched with
//! word boundaries; a metadata form `TAG(...)` takes precedence over the
//! bare form on any line where it matches. Whitespace trimming, word
//! characters and letter-case folding are ASCII throughout the scanner.

use vstd::prelude::*;
use vstd::utf8::{encode_utf8, encode_scalar};
use vstd::string::StringSliceAdditionalSpecFns;
use crate::error::TodoError;
use crate::model::{Priority, TodoItem, TodoTag, priority_of_token, tag_text};
use crate::scanner::languages::{LanguageRule, LanguageDatabase, lang_block, db_wf, lang_eqv,
    lang_has_ext, is_rust_lang, is_go_lang, is_python_lang, is_javascript_lang,
    is_typescript_lang, is_java_lang, is_c_lang, is_cpp_lang, is_csharp_lang, is_ruby_lang};
use crate::strutil::{is_space, is_word_char, occurs_at, find_char_from, find_sub_from,
    skip_spaces, trimmed, lines_of, split_char_seq, views_of, is_space_char, is_word_char_exec,
    occurs_at_exec, find_char, find_sub, skip_spaces_exec, split_lines, split_on_char, trim_str,
    lemma_find_char_from_props, lemma_find_sub_from_props};

verus! {

broadcast use vstd::string::group_string_axioms;

/// A word boundary precedes position `p`: start of line, or a non-word
/// character before it.
pub open spec fn boundary_before(line: Seq<char>, p: int) -> bool {
    p == 0 || (0 < p <= line.len() && !is_word_char(line[p - 1]))
}

/// A word boundary follows position `e`: end of line, or a non-word
/// character at it.
pub open spec fn boundary_after(line: Seq<char>, e: int) -> bool {
    e == line.len() || (0 <= e < line.len() && !is_word_char(line[e]))
}

/// The fixed tag word occurring at `p` with a word boundary before it, if
/// any. The five words begin with distinct letters, so at most one matches.
pub open spec fn tag_at(line: Seq<char>, p: int) -> Option<Seq<char>> {
    if !boundary_before(line, p) {
        None
    } else if occurs_at(line, "TODO"@, p) {
        Some("TODO"@)
    } else if occurs_at(line, "FIXME"@, p) {
        Some("FIXME"@)
    } else if occurs_at(line, "HACK"@, p) {
        Some("HACK"@)
    } else if occurs_at(line, "BUG"@, p) {
        Some("BUG"@)
    } else if occurs_at(line, "XXX"@, p) {
        Some("XXX"@)
    } else {
        None
    }
}

/// A metadata-form match at `p`: the tag word followed immediately by `(`,
/// with a closing `)` later on the line. Yields the tag text and the index
/// of the closing parenthesis.
pub open spec fn meta_at(line: Seq<char>, p: int) -> Option<(Seq<char>, int)> {
    match tag_at(line, p) {
        Some(t) => {
            let e = p + t.len() as int;
            if e < line.len() && line[e] == '(' {
                match find_char_from(line, ')', e + 1) {
                    Some(c) => Some((t, c)),
                    None => None,
                }
            } else {
                None
            }
        },
        None => None,
    }
}

/// A bare-form match at `p`: the tag word with word boundaries on both
/// sides.
pub open spec fn bare_at(line: Seq<char>, p: int) -> Option<Seq<char>> {
    match tag_at(line, p) {
        Some(t) => if boundary_after(line, p + t.len() as int) {
            Some(t)
        } else {
            None
        },
        None => None,
    }
}

/// The leftmost metadata-form match at or after `from`.
pub open spec fn next_meta(line: Seq<char>, from: int) -> Option<(int, Seq<char>, int)>
    decreases line.len() - from,
{
    if from < 0 || from >= line.len() {
        None
    } else {
        match meta_at(line, from) {
            Some((t, c)) => Some((from, t, c)),
            None => next_meta(line, from + 1),
        }
    }
}

/// The leftmost bare-form match at or after `from`.
pub open spec fn next_bare(line: Seq<char>, from: int) -> Option<(int, Seq<char>)>
    decreases line.len() - from,
{
    if from < 0 || from >= line.len() {
        None
    } else {
        match bare_at(line, from) {
            Some(t) => Some((from, t)),
            None => next_bare(line, from + 1),
        }
    }
}

/// Characters stripped from the front of a message: colons, dashes and
/// whitespace.
pub open spec fn is_strip_char(c: char) -> bool {
    c == ':' || c == '-' || is_space(c)
}

/// The index of the first character at or after `from` that is not
/// stripped from a message front.
pub open spec fn skip_strip_chars(s: Seq<char>, from: int) -> int
    decreases s.len() - from,
{
    if from < 0 || from >= s.len() {
        from
    } else if is_strip_char(s[from]) {
        skip_strip_chars(s, from + 1)
    } else {
        from
    }
}

/// The message text that follows a match ending at `tag_end`: everything
/// after the match (skipping one trailing parenthesised group if the match
/// did not consume it), with leading colons, dashes and whitespace removed.
pub open spec fn msg_after(line: Seq<char>, tag_end: int) -> Seq<char> {
    let rest = line.subrange(tag_end, line.len() as int);
    let after = if rest.len() > 0 && rest[0] == '(' {
        match find_char_from(rest, ')', 0) {
            Some(cl) => rest.subrange(cl + 1, rest.len() as int),
            None => rest,
        }
    } else {
        rest
    };
    after.subrange(skip_strip_chars(after, 0), after.len() as int)
}

/// One step of metadata classification: an empty token is skipped; a token
/// starting with `#` is the issue; a recognised priority alias sets the
/// priority; otherwise the first such token becomes the author.
pub open spec fn meta_fold(
    toks: Seq<Seq<char>>,
    i: int,
    author: Option<Seq<char>>,
    issue: Option<Seq<char>>,
    prio: Option<Priority>,
) -> (Option<Seq<char>>, Option<Seq<char>>, Option<Priority>)
    decreases toks.len() - i,
{
    if i < 0 || i >= toks.len() {
        (author, issue, prio)
    } else {
        let t = trimmed(toks[i]);
        if t.len() == 0 {
            meta_fold(toks, i + 1, author, issue, prio)
        } else if t[0] == '#' {
            meta_fold(toks, i + 1, author, Some(t), prio)
        } else if priority_of_token(t) is Some {
            meta_fold(toks, i + 1, author, issue, priority_of_token(t))
        } else if author is None {
            meta_fold(toks, i + 1, Some(t), issue, prio)
        } else {
            meta_fold(toks, i + 1, author, issue, prio)
        }
    }
}

/// The (author, issue, priority) triple read from the comma-separated
/// contents of a metadata list.
pub open spec fn parse_meta_spec(contents: Seq<char>) -> (
    Option<Seq<char>>,
    Option<Seq<char>>,
    Option<Priority>,
) {
    meta_fold(split_char_seq(contents, ','), 0, None, None, None)
}

/// The one-based column of character position `p`: the UTF-8 byte offset of
/// the position, plus one.
pub open spec fn byte_col(line: Seq<char>, p: int) -> int {
    encode_utf8(line.subrange(0, p)).len() as int + 1
}

/// Encoding distributes over concatenation.
pub proof fn lemma_encode_utf8_concat(a: Seq<char>, b: Seq<char>)
    ensures
        encode_utf8(a + b) == encode_utf8(a) + encode_utf8(b),
    decreases a.len(),
{
    if a.len() == 0 {
        assert(a + b =~= b);
        assert(encode_utf8(a) =~= Seq::<u8>::empty());
        assert(encode_utf8(a) + encode_utf8(b) =~= encode_utf8(b));
    } else {
        lemma_encode_utf8_concat(a.drop_first(), b);
        assert((a + b).drop_first() =~= a.drop_first() + b);
        assert((a + b)[0] == a[0]);
        assert(encode_utf8(a + b) =~= encode_utf8(a) + encode_utf8(b));
    }
}

/// Every character encodes to at least one byte.
pub proof fn lemma_encode_utf8_min_len(s: Seq<char>)
    ensures
        encode_utf8(s).len() >= s.len(),
    decreases s.len(),
{
    if s.len() > 0 {
        lemma_encode_utf8_min_len(s.drop_first());
    }
}

/// The width in bytes of one character's UTF-8 encoding.
pub fn char_utf8_width(c: char) -> (r: usize)
    ensures
        r == encode_scalar(c as u32).len(),
        1 <= r <= 4,
{
    let u = c as u32;
    if u < 0x80 {
        1
    } else if u < 0x800 {
        2
    } else if u < 0x10000 {
        3
    } else {
        4
    }
}

/// The UTF-8 byte offset of character position `p` within `line`.
pub fn byte_offset_of(line: &str, llen: usize, p: usize) -> (r: usize)
    requires
        llen == line@.len(),
        p <= llen,
    ensures
        r == encode_utf8(line@.subrange(0, p as int)).len(),
{
    let total = line.as_bytes().len();
    proof {
        assert(line.spec_bytes() == encode_utf8(line@));
        assert(total == encode_utf8(line@).len());
    }
    let mut acc: usize = 0;
    let mut i: usize = 0;
    proof {
        assert(line@.subrange(0, 0) =~= Seq::<char>::empty());
        assert(encode_utf8(line@.subrange(0, 0)).len() == 0);
    }
    while i < p
        invariant
            llen == line@.len(),
            p <= llen,
            i <= p,
            total == encode_utf8(line@).len(),
            acc == encode_utf8(line@.subrange(0, i as int)).len(),
            acc <= total,
        decreases p - i,
    {
        let c = line.get_char(i);
        let w = char_utf8_width(c);
        proof {
            let pre = line@.subrange(0, i as int);
            let one = line@.subrange(i as int, i + 1);
            assert(one =~= seq![line@[i as int]]);
            assert(pre + one =~= line@.subrange(0, i + 1));
            lemma_encode_utf8_concat(pre, one);
            assert(one.drop_first() =~= Seq::<char>::empty());
            assert(encode_utf8(one.drop_first()) =~= Seq::<u8>::empty());
            assert(encode_utf8(one) =~= encode_scalar(one[0] as u32) + encode_utf8(
                one.drop_first(),
            ));
            assert(encode_utf8(one) =~= encode_scalar(line@[i as int] as u32));
            // the prefix so far plus the rest of the line encode the whole
            let rest = line@.subrange(i + 1, llen as int);
            assert(line@.subrange(0, i + 1) + rest =~= line@);
            lemma_encode_utf8_concat(line@.subrange(0, i + 1), rest);
        }
        acc = acc + w;
        i += 1;
    }
    acc
}

/// The fields of one candidate, at the specification level.
#[verifier::ext_equal]
pub ghost struct CandV {
    pub tag: Seq<char>,
    pub message: Seq<char>,
    pub line: int,
    pub column: int,
    pub author: Option<Seq<char>>,
    pub issue: Option<Seq<char>>,
    pub priority: Option<Priority>,
    pub context: Seq<char>,
}

/// The view of an optional string.
pub open spec fn opt_str_view(o: Option<String>) -> Option<Seq<char>> {
    match o {
        Some(s) => Some(s@),
        None => None,
    }
}

/// The specification-level content of a produced item; the file path and
/// git enrichment fields are stated separately.
pub open spec fn cand_of(it: TodoItem) -> CandV {
    CandV {
        tag: tag_text(it.tag),
        message: it.message@,
        line: it.line as int,
        column: it.column as int,
        author: opt_str_view(it.author),
        issue: opt_str_view(it.issue),
        priority: it.priority,
        context: it.context_line@,
    }
}

pub open spec fn cands_of(items: Seq<TodoItem>) -> Seq<CandV> {
    items.map_values(|it: TodoItem| cand_of(it))
}

/// The candidate a metadata-form match produces.
pub open spec fn meta_item(line: Seq<char>, lineno: int, p: int, t: Seq<char>, c: int) -> CandV {
    let meta = parse_meta_spec(line.subrange(p + t.len() as int + 1, c));
    CandV {
        tag: t,
        message: msg_after(line, c + 1),
        line: lineno,
        column: byte_col(line, p),
        author: meta.0,
        issue: meta.1,
        priority: meta.2,
        context: line,
    }
}

/// The candidate a bare-form match produces.
pub open spec fn bare_item(line: Seq<char>, lineno: int, p: int, t: Seq<char>) -> CandV {
    CandV {
        tag: t,
        message: msg_after(line, p + t.len() as int),
        line: lineno,
        column: byte_col(line, p),
        author: None,
        issue: None,
        priority: None,
        context: line,
    }
}

/// All metadata-form candidates of a line at or after `from`, leftmost
/// first, continuing after the end of each match.
pub open spec fn meta_items(line: Seq<char>, lineno: int, from: int) -> Seq<CandV>
    decreases line.len() + 1 - from,
{
    match next_meta(line, from) {
        Some((p, t, c)) => if from <= c && c < line.len() {
            seq![meta_item(line, lineno, p, t, c)] + meta_items(line, lineno, c + 1)
        } else {
            seq![meta_item(line, lineno, p, t, c)]
        },
        None => Seq::empty(),
    }
}

/// All bare-form candidates of a line at or after `from`.
pub open spec fn bare_items(line: Seq<char>, lineno: int, from: int) -> Seq<CandV>
    decreases line.len() + 1 - from,
{
    match next_bare(line, from) {
        Some((p, t)) => if from < p + t.len() && p + t.len() <= line.len() && t.len() > 0 {
            seq![bare_item(line, lineno, p, t)] + bare_items(line, lineno, p + t.len() as int)
        } else {
            seq![bare_item(line, lineno, p, t)]
        },
        None => Seq::empty(),
    }
}

/// The candidates of one line: the metadata grammar takes precedence; the
/// bare grammar is tried only when no metadata form matches anywhere on the
/// line.
pub open spec fn line_items(line: Seq<char>, lineno: int) -> Seq<CandV> {
    if next_meta(line, 0) is Some {
        meta_items(line, lineno, 0)
    } else {
        bare_items(line, lineno, 0)
    }
}

/// The tag word at `p` with its enum form and length, or nothing.
fn tag_at_exec(line: &str, llen: usize, p: usize) -> (r: Option<(TodoTag, usize)>)
    requires
        llen == line@.len(),
        p <= llen,
    ensures
        match r {
            Some((t, l)) => {
                &&& tag_at(line@, p as int) == Some(tag_text(t))
                &&& l == tag_text(t).len()
                &&& !(t is Custom)
                &&& 3 <= l <= 5
                &&& p + l <= llen
            },
            None => tag_at(line@, p as int) is None,
        },
{
    proof {
        reveal_strlit("TODO");
        reveal_strlit("FIXME");
        reveal_strlit("HACK");
        reveal_strlit("BUG");
        reveal_strlit("XXX");
    }
    if !(p == 0 || !is_word_char_exec(line.get_char(p - 1))) {
        return None;
    }
    if occurs_at_exec(line, llen, "TODO", p) {
        Some((TodoTag::Todo, 4))
    } else if occurs_at_exec(line, llen, "FIXME", p) {
        Some((TodoTag::Fixme, 5))
    } else if occurs_at_exec(line, llen, "HACK", p) {
        Some((TodoTag::Hack, 4))
    } else if occurs_at_exec(line, llen, "BUG", p) {
        Some((TodoTag::Bug, 3))
    } else if occurs_at_exec(line, llen, "XXX", p) {
        Some((TodoTag::Xxx, 3))
    } else {
        None
    }
}

/// The leftmost metadata-form match at or after `from`, with the matched
/// tag as an enum and the relevant offsets.
fn find_meta(line: &str, llen: usize, from: usize) -> (r: Option<(usize, TodoTag, usize, usize)>)
    requires
        llen == line@.len(),
        from <= llen,
    ensures
        match r {
            Some((p, t, tl, c)) => {
                &&& next_meta(line@, from as int) == Some(
                    (p as int, tag_text(t), c as int),
                )
                &&& tag_at(line@, p as int) == Some(tag_text(t))
                &&& tl == tag_text(t).len()
                &&& !(t is Custom)
                &&& 3 <= tl <= 5
                &&& from <= p && p + tl < llen
                &&& p + tl + 1 <= c < llen
            },
            None => next_meta(line@, from as int) is None,
        },
{
    let mut p: usize = from;
    while p < llen
        invariant
            llen == line@.len(),
            from <= p <= llen,
            next_meta(line@, from as int) == next_meta(line@, p as int),
        decreases llen - p,
    {
        match tag_at_exec(line, llen, p) {
            Some((t, tl)) => {
                let e = p + tl;
                if e < llen && line.get_char(e) == '(' {
                    match find_char(line, llen, ')', e + 1) {
                        Some(c) => {
                            return Some((p, t, tl, c));
                        },
                        None => {},
                    }
                }
            },
            None => {},
        }
        proof {
            assert(meta_at(line@, p as int) is None);
        }
        p += 1;
    }
    None
}

/// The leftmost bare-form match at or after `from`.
fn find_bare(line: &str, llen: usize, from: usize) -> (r: Option<(usize, TodoTag, usize)>)
    requires
        llen == line@.len(),
        from <= llen,
    ensures
        match r {
            Some((p, t, tl)) => {
                &&& next_bare(line@, from as int) == Some((p as int, tag_text(t)))
                &&& tag_at(line@, p as int) == Some(tag_text(t))
                &&& tl == tag_text(t).len()
                &&& !(t is Custom)
                &&& 3 <= tl <= 5
                &&& from <= p && p + tl <= llen
            },
            None => next_bare(line@, from as int) is None,
        },
{
    let mut p: usize = from;
    while p < llen
        invariant
            llen == line@.len(),
            from <= p <= llen,
            next_bare(line@, from as int) == next_bare(line@, p as int),
        decreases llen - p,
    {
        match tag_at_exec(line, llen, p) {
            Some((t, tl)) => {
                let e = p + tl;
                if e == llen || !is_word_char_exec(line.get_char(e)) {
                    return Some((p, t, tl));
                }
            },
            None => {},
        }
        proof {
            assert(bare_at(line@, p as int) is None);
        }
        p += 1;
    }
    None
}

/// Parses the comma-separated contents of a metadata list into the optional
/// author, issue reference and priority, as `parse_meta_spec` describes.
/// Tokens are trimmed of ASCII whitespace, and priority aliases are
/// matched ignoring ASCII case.
pub fn parse_metadata(contents: &str) -> (r: (Option<String>, Option<String>, Option<Priority>))
    ensures
        (opt_str_view(r.0), opt_str_view(r.1), r.2) == parse_meta_spec(contents@),
{
    let toks = split_on_char(contents, ',');
    let ghost toksv = split_char_seq(contents@, ',');
    let n = toks.len();
    let mut author: Option<String> = None;
    let mut issue: Option<String> = None;
    let mut prio: Option<Priority> = None;
    let mut i: usize = 0;
    while i < n
        invariant
            n == toks@.len(),
            i <= n,
            toksv == views_of(toks@),
            meta_fold(toksv, 0, None, None, None) == meta_fold(
                toksv,
                i as int,
                opt_str_view(author),
                opt_str_view(issue),
                prio,
            ),
        decreases n - i,
    {
        let t = trim_str(toks[i].as_str());
        proof {
            assert(toks@[i as int]@ == toksv[i as int]);
            assert(t@ == trimmed(toksv[i as int]));
        }
        let tlen = t.as_str().unicode_len();
        if tlen == 0 {
        } else if t.as_str().get_char(0) == '#' {
            issue = Some(t);
        } else {
            match Priority::from_str_tag(t.as_str()) {
                Some(pr) => {
                    prio = Some(pr);
                },
                None => {
                    if author.is_none() {
                        author = Some(t);
                    }
                },
            }
        }
        i += 1;
    }
    (author, issue, prio)
}
/// The message text that follows a match: everything after `tag_end` (with
/// one parenthesised group skipped if present), leading colons, dashes and
/// ASCII whitespace removed. `tag_start` is the match start; the text
/// before the match does not contribute to the message.
pub fn extract_message(line: &str, tag_start: usize, tag_end: usize) -> (r: String)
    requires
        tag_start <= tag_end <= line@.len(),
    ensures
        r@ == msg_after(line@, tag_end as int),
{
    let llen = line.unicode_len();
    let rest = line.substring_char(tag_end, llen);
    let rlen = llen - tag_end;
    proof {
        assert(rest@ == line@.subrange(tag_end as int, llen as int));
        assert(rest@.len() == rlen);
    }
    let after_start: usize = if rlen > 0 && rest.get_char(0) == '(' {
        match find_char(rest, rlen, ')', 0) {
            Some(cl) => cl + 1,
            None => 0,
        }
    } else {
        0
    };
    let ghost after = if rest@.len() > 0 && rest@[0] == '(' {
        match find_char_from(rest@, ')', 0) {
            Some(cl) => rest@.subrange(cl + 1, rest@.len() as int),
            None => rest@,
        }
    } else {
        rest@
    };
    proof {
        assert(after =~= rest@.subrange(after_start as int, rlen as int));
    }
    let a = skip_strip_exec_sub(rest, rlen, after_start);
    let msg = String::from_str(rest.substring_char(a, rlen));
    proof {
        assert(msg@ =~= after.subrange(skip_strip_chars(after, 0), after.len() as int));
    }
    msg
}

/// `skip_strip_chars` on a suffix of `s`, phrased on the suffix.
fn skip_strip_exec_sub(s: &str, slen: usize, start: usize) -> (r: usize)
    requires
        slen == s@.len(),
        start <= slen,
    ensures
        start <= r <= slen,
        r - start == skip_strip_chars(s@.subrange(start as int, slen as int), 0),
{
    let ghost suf = s@.subrange(start as int, slen as int);
    let mut i: usize = start;
    while i < slen
        invariant
            slen == s@.len(),
            start <= i <= slen,
            suf == s@.subrange(start as int, slen as int),
            skip_strip_chars(suf, 0) == skip_strip_chars(suf, i - start),
        decreases slen - i,
    {
        let c = s.get_char(i);
        proof {
            assert(suf[i - start] == s@[i as int]);
        }
        if !(c == ':' || c == '-' || is_space_char(c)) {
            proof {
                assert(skip_strip_chars(suf, i - start) == i - start);
            }
            return i;
        }
        i += 1;
    }
    proof {
        assert(skip_strip_chars(suf, i - start) == i - start);
    }
    i
}

/// Builds the item for one metadata-form match.
fn build_meta_item(
    line: &str,
    llen: usize,
    path: &str,
    lineno: usize,
    p: usize,
    t: TodoTag,
    tl: usize,
    c: usize,
) -> (it: TodoItem)
    requires
        llen == line@.len(),
        tl == tag_text(t).len(),
        3 <= tl,
        p + tl < llen,
        p + tl + 1 <= c < llen,
        !(t is Custom),
    ensures
        cand_of(it) == meta_item(line@, lineno as int, p as int, tag_text(t), c as int),
        it.file@ == path@,
        it.git_author is None,
        it.git_date is None,
        !(it.tag is Custom),
        it.tag == t,
{
    let total = line.as_bytes().len();
    proof {
        assert(line.spec_bytes() == encode_utf8(line@));
        let pre = line@.subrange(0, p as int);
        let suf = line@.subrange(p as int, llen as int);
        assert(pre + suf =~= line@);
        lemma_encode_utf8_concat(pre, suf);
        lemma_encode_utf8_min_len(suf);
        assert(encode_utf8(pre).len() + 3 <= total);
    }
    let off = byte_offset_of(line, llen, p);
    let message = extract_message(line, p, c + 1);
    let contents = line.substring_char(p + tl + 1, c);
    let meta = parse_metadata(contents);
    let it = TodoItem {
        tag: t,
        message,
        file: String::from_str(path),
        line: lineno,
        column: off + 1,
        author: meta.0,
        issue: meta.1,
        priority: meta.2,
        context_line: String::from_str(line),
        git_author: None,
        git_date: None,
    };
    it
}

/// Builds the item for one bare-form match.
fn build_bare_item(
    line: &str,
    llen: usize,
    path: &str,
    lineno: usize,
    p: usize,
    t: TodoTag,
    tl: usize,
) -> (it: TodoItem)
    requires
        llen == line@.len(),
        tl == tag_text(t).len(),
        3 <= tl,
        p + tl <= llen,
        !(t is Custom),
    ensures
        cand_of(it) == bare_item(line@, lineno as int, p as int, tag_text(t)),
        it.file@ == path@,
        it.git_author is None,
        it.git_date is None,
        !(it.tag is Custom),
        it.tag == t,
{
    let total = line.as_bytes().len();
    proof {
        assert(line.spec_bytes() == encode_utf8(line@));
        let pre = line@.subrange(0, p as int);
        let suf = line@.subrange(p as int, llen as int);
        assert(pre + suf =~= line@);
        lemma_encode_utf8_concat(pre, suf);
        lemma_encode_utf8_min_len(suf);
        assert(encode_utf8(pre).len() + 3 <= total);
    }
    let off = byte_offset_of(line, llen, p);
    let message = extract_message(line, p, p + tl);
    let it = TodoItem {
        tag: t,
        message,
        file: String::from_str(path),
        line: lineno,
        column: off + 1,
        author: None,
        issue: None,
        priority: None,
        context_line: String::from_str(line),
        git_author: None,
        git_date: None,
    };
    it
}

/// Every produced item carries the scanned path, no git enrichment, and a
/// tag from the fixed vocabulary.
pub open spec fn items_wf(items: Seq<TodoItem>, path: Seq<char>) -> bool {
    forall|j: int|
        0 <= j < items.len() ==> {
            &&& (#[trigger] items[j]).file@ == path
            &&& items[j].git_author is None
            &&& items[j].git_date is None
            &&& !(items[j].tag is Custom)
        }
}

/// Scans one line that is already known to be inside a comment, producing
/// its candidates in order.
fn scan_line(line: &str, path: &str, lineno: usize) -> (items: Vec<TodoItem>)
    ensures
        cands_of(items@) == line_items(line@, lineno as int),
        items_wf(items@, path@),
{
    let llen = line.unicode_len();
    let mut items: Vec<TodoItem> = Vec::new();
    match find_meta(line, llen, 0) {
        Some(_) => {
            let mut from: usize = 0;
            proof {
                assert(cands_of(items@) =~= Seq::<CandV>::empty());
                assert(line_items(line@, lineno as int) == meta_items(line@, lineno as int, 0));
            }
            loop
                invariant
                    from <= llen,
                    meta_items(line@, lineno as int, 0) =~= cands_of(items@) + meta_items(
                        line@,
                        lineno as int,
                        from as int,
                    ),
                    items_wf(items@, path@),
                decreases llen + 1 - from,
            {
                match find_meta(line, llen, from) {
                    Some((p, t, tl, c)) => {
                        let it = build_meta_item(line, llen, path, lineno, p, t, tl, c);
                        let ghost prev = items@;
                        items.push(it);
                        proof {
                            assert(cands_of(items@) =~= cands_of(prev).push(cand_of(it)));
                            assert(meta_items(line@, lineno as int, from as int) == seq![
                                meta_item(line@, lineno as int, p as int, tag_text(t), c as int),
                            ] + meta_items(line@, lineno as int, c + 1));
                            assert(meta_items(line@, lineno as int, 0) =~= cands_of(items@)
                                + meta_items(line@, lineno as int, c + 1));
                        }
                        from = c + 1;
                    },
                    None => {
                        proof {
                            assert(meta_items(line@, lineno as int, from as int)
                                =~= Seq::<CandV>::empty());
                            assert(cands_of(items@) =~= line_items(line@, lineno as int));
                        }
                        break;
                    },
                }
            }
        },
        None => {
            let mut from: usize = 0;
            proof {
                assert(cands_of(items@) =~= Seq::<CandV>::empty());
                assert(line_items(line@, lineno as int) == bare_items(line@, lineno as int, 0));
            }
            loop
                invariant
                    from <= llen,
                    bare_items(line@, lineno as int, 0) =~= cands_of(items@) + bare_items(
                        line@,
                        lineno as int,
                        from as int,
                    ),
                    items_wf(items@, path@),
                decreases llen + 1 - from,
            {
                match find_bare(line, llen, from) {
                    Some((p, t, tl)) => {
                        let it = build_bare_item(line, llen, path, lineno, p, t, tl);
                        let ghost prev = items@;
                        items.push(it);
                        proof {
                            assert(cands_of(items@) =~= cands_of(prev).push(cand_of(it)));
                            assert(bare_items(line@, lineno as int, from as int) == seq![
                                bare_item(line@, lineno as int, p as int, tag_text(t)),
                            ] + bare_items(line@, lineno as int, p + tl));
                            assert(bare_items(line@, lineno as int, 0) =~= cands_of(items@)
                                + bare_items(line@, lineno as int, p + tl));
                        }
                        from = p + tl;
                    },
                    None => {
                        proof {
                            assert(bare_items(line@, lineno as int, from as int)
                                =~= Seq::<CandV>::empty());
                            assert(cands_of(items@) =~= line_items(line@, lineno as int));
                        }
                        break;
                    },
                }
            }
        },
    }
    items
}

/// The block-comment delimiter machine for one line, mirroring a
/// left-to-right search: from `pos`, the next block-start (always) and the
/// next block-end (only while the depth is positive) are located; whichever
/// comes first opens or closes a block, and scanning resumes after it.
/// Returns the depth at the end of the line and whether a block was opened
/// on the line.
pub open spec fn block_scan(
    line: Seq<char>,
    pos: int,
    depth: nat,
    opened: bool,
    bs: Seq<char>,
    be: Seq<char>,
) -> (nat, bool)
    decreases line.len() - pos,
{
    if pos < 0 || pos >= line.len() {
        (depth, opened)
    } else {
        let ns = find_sub_from(line, bs, pos);
        let ne = if depth > 0 {
            find_sub_from(line, be, pos)
        } else {
            None
        };
        match (ns, ne) {
            (Some(s), Some(e)) => if s < e {
                if pos < s + bs.len() && s + bs.len() <= line.len() {
                    block_scan(line, s + bs.len() as int, (depth + 1) as nat, true, bs, be)
                } else {
                    (depth, opened)
                }
            } else {
                if pos < e + be.len() && e + be.len() <= line.len() {
                    block_scan(line, e + be.len() as int, (depth - 1) as nat, opened, bs, be)
                } else {
                    (depth, opened)
                }
            },
            (Some(s), None) => if pos < s + bs.len() && s + bs.len() <= line.len() {
                block_scan(line, s + bs.len() as int, (depth + 1) as nat, true, bs, be)
            } else {
                (depth, opened)
            },
            (None, Some(e)) => if pos < e + be.len() && e + be.len() <= line.len() {
                block_scan(line, e + be.len() as int, (depth - 1) as nat, opened, bs, be)
            } else {
                (depth, opened)
            },
            (None, None) => (depth, opened),
        }
    }
}

/// With a block-start delimiter of at least two characters, the depth can
/// grow by at most one for every two characters of the line.
pub proof fn lemma_block_scan_bound(
    line: Seq<char>,
    pos: int,
    depth: nat,
    opened: bool,
    bs: Seq<char>,
    be: Seq<char>,
)
    requires
        bs.len() >= 2,
        be.len() >= 1,
        0 <= pos <= line.len(),
    ensures
        2 * block_scan(line, pos, depth, opened, bs, be).0 <= 2 * depth + (line.len() - pos),
    decreases line.len() - pos,
{
    if pos < line.len() {
        lemma_find_sub_from_props(line, bs, pos);
        lemma_find_sub_from_props(line, be, pos);
        let ns = find_sub_from(line, bs, pos);
        let ne = if depth > 0 {
            find_sub_from(line, be, pos)
        } else {
            None
        };
        match (ns, ne) {
            (Some(s), Some(e)) => if s < e {
                lemma_block_scan_bound(line, s + bs.len() as int, (depth + 1) as nat, true, bs, be);
            } else {
                lemma_block_scan_bound(
                    line,
                    e + be.len() as int,
                    (depth - 1) as nat,
                    opened,
                    bs,
                    be,
                );
            },
            (Some(s), None) => {
                lemma_block_scan_bound(line, s + bs.len() as int, (depth + 1) as nat, true, bs, be);
            },
            (None, Some(e)) => {
                lemma_block_scan_bound(
                    line,
                    e + be.len() as int,
                    (depth - 1) as nat,
                    opened,
                    bs,
                    be,
                );
            },
            (None, None) => {},
        }
    }
}

/// Runs the block-comment delimiter machine over one line.
fn block_scan_exec(
    line: &str,
    llen: usize,
    depth0: usize,
    bs: &str,
    be: &str,
) -> (r: (usize, bool))
    requires
        llen == line@.len(),
        2 * depth0 + llen <= usize::MAX,
        bs@.len() >= 2,
        be@.len() >= 1,
    ensures
        (r.0 as nat, r.1) == block_scan(line@, 0, depth0 as nat, false, bs@, be@),
        2 * r.0 <= 2 * depth0 + llen,
{
    let mut pos: usize = 0;
    let mut depth: usize = depth0;
    let mut opened: bool = false;
    proof {
        lemma_block_scan_bound(line@, 0, depth0 as nat, false, bs@, be@);
    }
    loop
        invariant
            pos <= llen,
            2 * depth <= 2 * depth0 + pos,
            block_scan(line@, 0, depth0 as nat, false, bs@, be@) == block_scan(
                line@,
                pos as int,
                depth as nat,
                opened,
                bs@,
                be@,
            ),
        decreases llen - pos,
    {
        if pos >= llen {
            return (depth, opened);
        }
        let ns = find_sub(line, llen, bs, pos);
        let ne = if depth > 0 {
            find_sub(line, llen, be, pos)
        } else {
            None
        };
        proof {
            lemma_find_sub_from_props(line@, bs@, pos as int);
            lemma_find_sub_from_props(line@, be@, pos as int);
        }
        match (ns, ne) {
            (Some(s), Some(e)) => {
                if s < e {
                    depth = depth + 1;
                    opened = true;
                    pos = s + bs.unicode_len();
                } else {
                    depth = depth - 1;
                    pos = e + be.unicode_len();
                }
            },
            (Some(s), None) => {
                depth = depth + 1;
                opened = true;
                pos = s + bs.unicode_len();
            },
            (None, Some(e)) => {
                depth = depth - 1;
                pos = e + be.unicode_len();
            },
            (None, None) => {
                return (depth, opened);
            },
        }
    }
}

/// Some line-comment prefix of the language begins the text.
pub open spec fn lc_prefix_match(t: Seq<char>, lcs: Seq<Seq<char>>) -> bool {
    exists|k: int| 0 <= k < lcs.len() && lcs[k].is_prefix_of(t)
}

/// The text from its first non-whitespace character on.
pub open spec fn trim_start_of(line: Seq<char>) -> Seq<char> {
    line.subrange(skip_spaces(line, 0), line.len() as int)
}

/// Whether an already-trimmed line starts with one of the language's
/// line-comment prefixes.
pub fn is_line_comment(trimmed_text: &str, lang: &LanguageRule) -> (r: bool)
    ensures
        r == lc_prefix_match(trimmed_text@, views_of(lang.line_comments@)),
{
    let n = lang.line_comments.len();
    let mut k: usize = 0;
    while k < n
        invariant
            n == lang.line_comments@.len(),
            k <= n,
            forall|q: int|
                0 <= q < k ==> !(#[trigger] views_of(lang.line_comments@)[q]).is_prefix_of(
                    trimmed_text@,
                ),
        decreases n - k,
    {
        if crate::strutil::str_starts_with(trimmed_text, lang.line_comments[k].as_str()) {
            proof {
                assert(views_of(lang.line_comments@)[k as int].is_prefix_of(trimmed_text@));
            }
            return true;
        }
        k += 1;
    }
    false
}

/// One line's contribution to the comment state: whether the line counts as
/// inside a comment, and the block depth after it.
pub open spec fn line_step(
    line: Seq<char>,
    depth: nat,
    lcs: Seq<Seq<char>>,
    blk: Option<(Seq<char>, Seq<char>)>,
) -> (bool, nat) {
    match blk {
        Some((bs, be)) => {
            let sc = block_scan(line, 0, depth, false, bs, be);
            (depth > 0 || sc.1 || lc_prefix_match(trim_start_of(line), lcs), sc.0)
        },
        None => (lc_prefix_match(trim_start_of(line), lcs), depth),
    }
}

/// The candidates of all lines from index `i` on, given the block depth at
/// the start of line `i`. Without language rules every line is scanned.
pub open spec fn scan_lines(
    lines: Seq<Seq<char>>,
    i: int,
    depth: nat,
    has_lang: bool,
    lcs: Seq<Seq<char>>,
    blk: Option<(Seq<char>, Seq<char>)>,
) -> Seq<CandV>
    decreases lines.len() - i,
{
    if i < 0 || i >= lines.len() {
        Seq::empty()
    } else {
        let step = if has_lang {
            line_step(lines[i], depth, lcs, blk)
        } else {
            (true, depth)
        };
        (if step.0 {
            line_items(lines[i], i + 1)
        } else {
            Seq::empty()
        }) + scan_lines(lines, i + 1, step.1, has_lang, lcs, blk)
    }
}

/// The sum of the lengths of a sequence of lines.
pub open spec fn sum_lens(ls: Seq<Seq<char>>) -> nat
    decreases ls.len(),
{
    if ls.len() == 0 {
        0
    } else {
        ls[0].len() + sum_lens(ls.drop_first())
    }
}

pub proof fn lemma_sum_lens_split(ls: Seq<Seq<char>>, i: int)
    requires
        0 <= i <= ls.len(),
    ensures
        sum_lens(ls) == sum_lens(ls.subrange(0, i)) + sum_lens(ls.subrange(i, ls.len() as int)),
    decreases i,
{
    if i == 0 {
        assert(ls.subrange(0, 0) =~= Seq::<Seq<char>>::empty());
        assert(ls.subrange(0, ls.len() as int) =~= ls);
    } else {
        lemma_sum_lens_split(ls.drop_first(), i - 1);
        assert(ls.subrange(0, i).drop_first() =~= ls.drop_first().subrange(0, i - 1));
        assert(ls.subrange(i, ls.len() as int) =~= ls.drop_first().subrange(
            i - 1,
            ls.drop_first().len() as int,
        ));
        assert(ls.subrange(0, i)[0] == ls[0]);
        assert(sum_lens(ls.subrange(0, i)) == ls[0].len() + sum_lens(
            ls.drop_first().subrange(0, i - 1),
        ));
    }
}

/// Splitting text into lines never yields more characters than the text.
pub proof fn lemma_lines_of_sum(s: Seq<char>)
    ensures
        sum_lens(lines_of(s)) <= s.len(),
    decreases s.len(),
{
    if s.len() > 0 {
        lemma_find_char_from_props(s, '\n', 0);
        match find_char_from(s, '\n', 0) {
            Some(i) => {
                lemma_lines_of_sum(s.subrange(i + 1, s.len() as int));
                let chunk = crate::strutil::chomp_cr(s.subrange(0, i));
                assert(lines_of(s) == seq![chunk] + lines_of(s.subrange(i + 1, s.len() as int)));
                assert((seq![chunk] + lines_of(s.subrange(i + 1, s.len() as int))).drop_first()
                    =~= lines_of(s.subrange(i + 1, s.len() as int)));
                assert((seq![chunk] + lines_of(s.subrange(i + 1, s.len() as int)))[0] == chunk);
                assert(chunk.len() <= i);
                assert(sum_lens(lines_of(s)) == chunk.len() + sum_lens(
                    lines_of(s.subrange(i + 1, s.len() as int)),
                ));
                assert(sum_lens(lines_of(s)) <= s.len());
            },
            None => {
                assert(lines_of(s) == seq![s]);
                assert(seq![s].drop_first() =~= Seq::<Seq<char>>::empty());
                assert(sum_lens(Seq::<Seq<char>>::empty()) == 0);
                assert((seq![s])[0] == s);
                assert(sum_lens(seq![s]) == s.len());
            },
        }
    }
}

/// The last position where `c` occurs in `s`, if any.
pub open spec fn rfind_char(s: Seq<char>, c: char) -> Option<int>
    decreases s.len(),
{
    if s.len() == 0 {
        None
    } else if s[s.len() - 1] == c {
        Some(s.len() - 1)
    } else {
        rfind_char(s.drop_last(), c)
    }
}

pub proof fn lemma_rfind_char_props(s: Seq<char>, c: char)
    ensures
        match rfind_char(s, c) {
            Some(i) => 0 <= i < s.len() && s[i] == c && forall|j: int|
                i < j < s.len() ==> s[j] != c,
            None => forall|j: int| 0 <= j < s.len() ==> s[j] != c,
        },
    decreases s.len(),
{
    if s.len() > 0 && s[s.len() - 1] != c {
        lemma_rfind_char_props(s.drop_last(), c);
        assert(forall|j: int| 0 <= j < s.len() - 1 ==> s.drop_last()[j] == s[j]);
    }
}

fn rfind_char_exec(s: &str, slen: usize, c: char) -> (r: Option<usize>)
    requires
        slen == s@.len(),
    ensures
        r == match rfind_char(s@, c) {
            Some(i) => Some(i as usize),
            None => None::<usize>,
        },
        r matches Some(i) ==> i < slen,
{
    let mut i: usize = slen;
    proof {
        assert(s@.subrange(0, slen as int) =~= s@);
    }
    while i > 0
        invariant
            slen == s@.len(),
            i <= slen,
            rfind_char(s@, c) == rfind_char(s@.subrange(0, i as int), c),
        decreases i,
    {
        let ghost pre = s@.subrange(0, i as int);
        if s.get_char(i - 1) == c {
            proof {
                assert(pre[pre.len() - 1] == s@[i - 1]);
                lemma_rfind_char_props(s@, c);
            }
            return Some(i - 1);
        }
        proof {
            assert(pre.drop_last() =~= s@.subrange(0, i - 1));
        }
        i -= 1;
    }
    proof {
        assert(s@.subrange(0, 0) =~= Seq::<char>::empty());
    }
    None
}

/// The last component of a path: the text after its last slash.
pub open spec fn path_comp(p: Seq<char>) -> Seq<char> {
    match rfind_char(p, '/') {
        Some(sl) => p.subrange(sl + 1, p.len() as int),
        None => p,
    }
}

/// The extension of a path: the text after the last dot of the last
/// path component, provided that dot is not the component's first
/// character. A path without such a dot has the empty extension.
pub open spec fn ext_of_path(p: Seq<char>) -> Seq<char> {
    let comp = path_comp(p);
    match rfind_char(comp, '.') {
        Some(d) => if d > 0 {
            comp.subrange(d + 1, comp.len() as int)
        } else {
            Seq::empty()
        },
        None => Seq::empty(),
    }
}

/// Extracts a path's extension, as `ext_of_path` describes.
pub fn path_extension(path: &str) -> (r: String)
    ensures
        r@ == ext_of_path(path@),
{
    let plen = path.unicode_len();
    let comp_start: usize = match rfind_char_exec(path, plen, '/') {
        Some(sl) => sl + 1,
        None => 0,
    };
    let comp = path.substring_char(comp_start, plen);
    let clen = plen - comp_start;
    proof {
        lemma_rfind_char_props(path@, '/');
        lemma_rfind_char_props(comp@, '.');
        match rfind_char(path@, '/') {
            Some(sl) => {
                assert(comp_start == sl + 1);
                assert(comp@ == path@.subrange(comp_start as int, plen as int));
                assert(path_comp(path@) == path@.subrange(sl + 1, path@.len() as int));
                assert(comp@ =~= path_comp(path@));
            },
            None => {
                assert(comp_start == 0);
                assert(path@.subrange(0, plen as int) =~= path@);
                assert(comp@ =~= path_comp(path@));
            },
        }
        assert(clen == comp@.len());
    }
    match rfind_char_exec(comp, clen, '.') {
        Some(d) => if d > 0 {
            String::from_str(comp.substring_char(d + 1, clen))
        } else {
            String::new()
        },
        None => String::new(),
    }
}

/// The registry name of the language that claims a known extension.
pub open spec fn name_of_rules(ext: Seq<char>) -> Seq<char> {
    if ext == "rs"@ {
        "Rust"@
    } else if ext == "go"@ {
        "Go"@
    } else if ext == "py"@ || ext == "pyi"@ {
        "Python"@
    } else if ext == "js"@ || ext == "jsx"@ || ext == "mjs"@ || ext == "cjs"@ {
        "JavaScript"@
    } else if ext == "ts"@ || ext == "tsx"@ {
        "TypeScript"@
    } else if ext == "java"@ {
        "Java"@
    } else if ext == "c"@ || ext == "h"@ {
        "C"@
    } else if ext == "cpp"@ || ext == "cxx"@ || ext == "cc"@ || ext == "hpp"@ || ext == "hxx"@
        || ext == "hh"@ {
        "C++"@
    } else if ext == "cs"@ {
        "C#"@
    } else if ext == "rb"@ {
        "Ruby"@
    } else {
        Seq::empty()
    }
}

/// The comment rules for a file extension: the line-comment prefixes and
/// the optional block delimiters, or nothing for an unknown extension.
pub open spec fn ext_rules(ext: Seq<char>) -> Option<
    (Seq<Seq<char>>, Option<(Seq<char>, Seq<char>)>),
> {
    if ext == "py"@ || ext == "pyi"@ || ext == "rb"@ {
        Some((seq!["#"@], None))
    } else if ext == "rs"@ || ext == "go"@ || ext == "js"@ || ext == "jsx"@ || ext == "mjs"@
        || ext == "cjs"@ || ext == "ts"@ || ext == "tsx"@ || ext == "java"@ || ext == "c"@
        || ext == "h"@ || ext == "cpp"@ || ext == "cxx"@ || ext == "cc"@ || ext == "hpp"@
        || ext == "hxx"@ || ext == "hh"@ || ext == "cs"@ {
        Some((seq!["//"@], Some(("/*"@, "*/"@))))
    } else {
        None
    }
}


/// Two character sequences differing at one position are unequal.
proof fn lemma_seq_neq_at(a: Seq<char>, b: Seq<char>, i: int)
    requires
        0 <= i < a.len(),
        0 <= i < b.len(),
        a[i] != b[i],
    ensures
        a != b,
{
}

/// None of the slash-commented extensions is a hash-commented one.
proof fn lemma_slash_ext_not_hash(ext: Seq<char>)
    requires
        ext == "rs"@ || ext == "go"@ || ext == "js"@ || ext == "jsx"@ || ext == "mjs"@ || ext == "cjs"@ || ext == "ts"@ || ext == "tsx"@ || ext == "java"@ || ext == "c"@ || ext == "h"@ || ext == "cpp"@ || ext == "cxx"@ || ext == "cc"@ || ext == "hpp"@ || ext == "hxx"@ || ext == "hh"@ || ext == "cs"@,
    ensures
        ext != "py"@ && ext != "pyi"@ && ext != "rb"@,
{
    reveal_strlit("rs");
    reveal_strlit("go");
    reveal_strlit("js");
    reveal_strlit("jsx");
    reveal_strlit("mjs");
    reveal_strlit("cjs");
    reveal_strlit("ts");
    reveal_strlit("tsx");
    reveal_strlit("java");
    reveal_strlit("c");
    reveal_strlit("h");
    reveal_strlit("cpp");
    reveal_strlit("cxx");
    reveal_strlit("cc");
    reveal_strlit("hpp");
    reveal_strlit("hxx");
    reveal_strlit("hh");
    reveal_strlit("cs");
    reveal_strlit("py");
    reveal_strlit("pyi");
    reveal_strlit("rb");
    if ext == "rs"@ {
        lemma_seq_neq_at(ext, "py"@, 0);
        lemma_seq_neq_at(ext, "pyi"@, 0);
        lemma_seq_neq_at(ext, "rb"@, 1);
    }
    if ext == "go"@ {
        lemma_seq_neq_at(ext, "py"@, 0);
        lemma_seq_neq_at(ext, "pyi"@, 0);
        lemma_seq_neq_at(ext, "rb"@, 0);
    }
    if ext == "js"@ {
        lemma_seq_neq_at(ext, "py"@, 0);
        lemma_seq_neq_at(ext, "pyi"@, 0);
        lemma_seq_neq_at(ext, "rb"@, 0);
    }
    if ext == "jsx"@ {
        lemma_seq_neq_at(ext, "py"@, 0);
        lemma_seq_neq_at(ext, "pyi"@, 0);
        lemma_seq_neq_at(ext, "rb"@, 0);
    }
    if ext == "mjs"@ {
        lemma_seq_neq_at(ext, "py"@, 0);
        lemma_seq_neq_at(ext, "pyi"@, 0);
        lemma_seq_neq_at(ext, "rb"@, 0);
    }
    if ext == "cjs"@ {
        lemma_seq_neq_at(ext, "py"@, 0);
        lemma_seq_neq_at(ext, "pyi"@, 0);
        lemma_seq_neq_at(ext, "rb"@, 0);
    }
    if ext == "ts"@ {
        lemma_seq_neq_at(ext, "py"@, 0);
        lemma_seq_neq_at(ext, "pyi"@, 0);
        lemma_seq_neq_at(ext, "rb"@, 0);
    }
    if ext == "tsx"@ {
        lemma_seq_neq_at(ext, "py"@, 0);
        lemma_seq_neq_at(ext, "pyi"@, 0);
        lemma_seq_neq_at(ext, "rb"@, 0);
    }
    if ext == "java"@ {
        lemma_seq_neq_at(ext, "py"@, 0);
        lemma_seq_neq_at(ext, "pyi"@, 0);
        lemma_seq_neq_at(ext, "rb"@, 0);
    }
    if ext == "c"@ {
        lemma_seq_neq_at(ext, "py"@, 0);
        lemma_seq_neq_at(ext, "pyi"@, 0);
        lemma_seq_neq_at(ext, "rb"@, 0);
    }
    if ext == "h"@ {
        lemma_seq_neq_at(ext, "py"@, 0);
        lemma_seq_neq_at(ext, "pyi"@, 0);
        lemma_seq_neq_at(ext, "rb"@, 0);
    }
    if ext == "cpp"@ {
        lemma_seq_neq_at(ext, "py"@, 0);
        lemma_seq_neq_at(ext, "pyi"@, 0);
        lemma_seq_neq_at(ext, "rb"@, 0);
    }
    if ext == "cxx"@ {
        lemma_seq_neq_at(ext, "py"@, 0);
        lemma_seq_neq_at(ext, "pyi"@, 0);
        lemma_seq_neq_at(ext, "rb"@, 0);
    }
    if ext == "cc"@ {
        lemma_seq_neq_at(ext, "py"@, 0);
        lemma_seq_neq_at(ext, "pyi"@, 0);
        lemma_seq_neq_at(ext, "rb"@, 0);
    }
    if ext == "hpp"@ {
        lemma_seq_neq_at(ext, "py"@, 0);
        lemma_seq_neq_at(ext, "pyi"@, 0);
        lemma_seq_neq_at(ext, "rb"@, 0);
    }
    if ext == "hxx"@ {
        lemma_seq_neq_at(ext, "py"@, 0);
        lemma_seq_neq_at(ext, "pyi"@, 0);
        lemma_seq_neq_at(ext, "rb"@, 0);
    }
    if ext == "hh"@ {
        lemma_seq_neq_at(ext, "py"@, 0);
        lemma_seq_neq_at(ext, "pyi"@, 0);
        lemma_seq_neq_at(ext, "rb"@, 0);
    }
    if ext == "cs"@ {
        lemma_seq_neq_at(ext, "py"@, 0);
        lemma_seq_neq_at(ext, "pyi"@, 0);
        lemma_seq_neq_at(ext, "rb"@, 0);
    }
}


/// The language names that have a tree-sitter grammar.
pub open spec fn has_grammar_name_spec(name: Seq<char>) -> bool {
    ||| name == "Rust"@
    ||| name == "JavaScript"@
    ||| name == "TypeScript"@
    ||| name == "Python"@
    ||| name == "Go"@
    ||| name == "Java"@
    ||| name == "C"@
    ||| name == "C++"@
    ||| name == "Ruby"@
}

/// Evaluates `name_of_rules` on each known extension, and notes that every
/// extension other than the one without a grammar differs from it.
proof fn lemma_name_of_rules_eval(ext: Seq<char>)
    requires
        ext == "rs"@ || ext == "go"@ || ext == "py"@ || ext == "pyi"@ || ext == "js"@ || ext == "jsx"@ || ext == "mjs"@ || ext == "cjs"@ || ext == "ts"@ || ext == "tsx"@ || ext == "java"@ || ext == "c"@ || ext == "h"@ || ext == "cpp"@ || ext == "cxx"@ || ext == "cc"@ || ext == "hpp"@ || ext == "hxx"@ || ext == "hh"@ || ext == "cs"@ || ext == "rb"@,
    ensures
        ext == "rs"@ ==> name_of_rules(ext) == "Rust"@ && ext != "cs"@,
        ext == "go"@ ==> name_of_rules(ext) == "Go"@ && ext != "cs"@,
        ext == "py"@ ==> name_of_rules(ext) == "Python"@ && ext != "cs"@,
        ext == "pyi"@ ==> name_of_rules(ext) == "Python"@ && ext != "cs"@,
        ext == "js"@ ==> name_of_rules(ext) == "JavaScript"@ && ext != "cs"@,
        ext == "jsx"@ ==> name_of_rules(ext) == "JavaScript"@ && ext != "cs"@,
        ext == "mjs"@ ==> name_of_rules(ext) == "JavaScript"@ && ext != "cs"@,
        ext == "cjs"@ ==> name_of_rules(ext) == "JavaScript"@ && ext != "cs"@,
        ext == "ts"@ ==> name_of_rules(ext) == "TypeScript"@ && ext != "cs"@,
        ext == "tsx"@ ==> name_of_rules(ext) == "TypeScript"@ && ext != "cs"@,
        ext == "java"@ ==> name_of_rules(ext) == "Java"@ && ext != "cs"@,
        ext == "c"@ ==> name_of_rules(ext) == "C"@ && ext != "cs"@,
        ext == "h"@ ==> name_of_rules(ext) == "C"@ && ext != "cs"@,
        ext == "cpp"@ ==> name_of_rules(ext) == "C++"@ && ext != "cs"@,
        ext == "cxx"@ ==> name_of_rules(ext) == "C++"@ && ext != "cs"@,
        ext == "cc"@ ==> name_of_rules(ext) == "C++"@ && ext != "cs"@,
        ext == "hpp"@ ==> name_of_rules(ext) == "C++"@ && ext != "cs"@,
        ext == "hxx"@ ==> name_of_rules(ext) == "C++"@ && ext != "cs"@,
        ext == "hh"@ ==> name_of_rules(ext) == "C++"@ && ext != "cs"@,
        ext == "cs"@ ==> name_of_rules(ext) == "C#"@ && true,
        ext == "rb"@ ==> name_of_rules(ext) == "Ruby"@ && ext != "cs"@,
{
    reveal_strlit("rs");
    reveal_strlit("go");
    reveal_strlit("py");
    reveal_strlit("pyi");
    reveal_strlit("js");
    reveal_strlit("jsx");
    reveal_strlit("mjs");
    reveal_strlit("cjs");
    reveal_strlit("ts");
    reveal_strlit("tsx");
    reveal_strlit("java");
    reveal_strlit("c");
    reveal_strlit("h");
    reveal_strlit("cpp");
    reveal_strlit("cxx");
    reveal_strlit("cc");
    reveal_strlit("hpp");
    reveal_strlit("hxx");
    reveal_strlit("hh");
    reveal_strlit("cs");
    reveal_strlit("rb");
    if ext == "rs"@ {
        assert("rs"@.len() == 2);
        assert("cs"@.len() == 2);
        assert("rs"@[0] == 'r');
        assert("cs"@[0] == 'c');
        lemma_seq_neq_at("rs"@, "cs"@, 0);
    }
    if ext == "go"@ {
        assert("go"@.len() == 2);
        assert("rs"@.len() == 2);
        assert("go"@[0] == 'g');
        assert("rs"@[0] == 'r');
        lemma_seq_neq_at("go"@, "rs"@, 0);
        assert("go"@.len() == 2);
        assert("cs"@.len() == 2);
        assert("go"@[0] == 'g');
        assert("cs"@[0] == 'c');
        lemma_seq_neq_at("go"@, "cs"@, 0);
    }
    if ext == "py"@ {
        assert("py"@.len() == 2);
        assert("rs"@.len() == 2);
        assert("py"@[0] == 'p');
        assert("rs"@[0] == 'r');
        lemma_seq_neq_at("py"@, "rs"@, 0);
        assert("py"@.len() == 2);
        assert("go"@.len() == 2);
        assert("py"@[0] == 'p');
        assert("go"@[0] == 'g');
        lemma_seq_neq_at("py"@, "go"@, 0);
        assert("py"@.len() == 2);
        assert("cs"@.len() == 2);
        assert("py"@[0] == 'p');
        assert("cs"@[0] == 'c');
        lemma_seq_neq_at("py"@, "cs"@, 0);
    }
    if ext == "pyi"@ {
        assert("pyi"@.len() == 3);
        assert("rs"@.len() == 2);
        assert("pyi"@ != "rs"@);
        assert("pyi"@.len() == 3);
        assert("go"@.len() == 2);
        assert("pyi"@ != "go"@);
        assert("pyi"@.len() == 3);
        assert("cs"@.len() == 2);
        assert("pyi"@ != "cs"@);
    }
    if ext == "js"@ {
        assert("js"@.len() == 2);
        assert("rs"@.len() == 2);
        assert("js"@[0] == 'j');
        assert("rs"@[0] == 'r');
        lemma_seq_neq_at("js"@, "rs"@, 0);
        assert("js"@.len() == 2);
        assert("go"@.len() == 2);
        assert("js"@[0] == 'j');
        assert("go"@[0] == 'g');
        lemma_seq_neq_at("js"@, "go"@, 0);
        assert("js"@.len() == 2);
        assert("py"@.len() == 2);
        assert("js"@[0] == 'j');
        assert("py"@[0] == 'p');
        lemma_seq_neq_at("js"@, "py"@, 0);
        assert("js"@.len() == 2);
        assert("pyi"@.len() == 3);
        assert("js"@ != "pyi"@);
        assert("js"@.len() == 2);
        assert("cs"@.len() == 2);
        assert("js"@[0] == 'j');
        assert("cs"@[0] == 'c');
        lemma_seq_neq_at("js"@, "cs"@, 0);
    }
    if ext == "jsx"@ {
        assert("jsx"@.len() == 3);
        assert("rs"@.len() == 2);
        assert("jsx"@ != "rs"@);
        assert("jsx"@.len() == 3);
        assert("go"@.len() == 2);
        assert("jsx"@ != "go"@);
        assert("jsx"@.len() == 3);
        assert("py"@.len() == 2);
        assert("jsx"@ != "py"@);
        assert("jsx"@.len() == 3);
        assert("pyi"@.len() == 3);
        assert("jsx"@[0] == 'j');
        assert("pyi"@[0] == 'p');
        lemma_seq_neq_at("jsx"@, "pyi"@, 0);
        assert("jsx"@.len() == 3);
        assert("cs"@.len() == 2);
        assert("jsx"@ != "cs"@);
    }
    if ext == "mjs"@ {
        assert("mjs"@.len() == 3);
        assert("rs"@.len() == 2);
        assert("mjs"@ != "rs"@);
        assert("mjs"@.len() == 3);
        assert("go"@.len() == 2);
        assert("mjs"@ != "go"@);
        assert("mjs"@.len() == 3);
        assert("py"@.len() == 2);
        assert("mjs"@ != "py"@);
        assert("mjs"@.len() == 3);
        assert("pyi"@.len() == 3);
        assert("mjs"@[0] == 'm');
        assert("pyi"@[0] == 'p');
        lemma_seq_neq_at("mjs"@, "pyi"@, 0);
        assert("mjs"@.len() == 3);
        assert("cs"@.len() == 2);
        assert("mjs"@ != "cs"@);
    }
    if ext == "cjs"@ {
        assert("cjs"@.len() == 3);
        assert("rs"@.len() == 2);
        assert("cjs"@ != "rs"@);
        assert("cjs"@.len() == 3);
        assert("go"@.len() == 2);
        assert("cjs"@ != "go"@);
        assert("cjs"@.len() == 3);
        assert("py"@.len() == 2);
        assert("cjs"@ != "py"@);
        assert("cjs"@.len() == 3);
        assert("pyi"@.len() == 3);
        assert("cjs"@[0] == 'c');
        assert("pyi"@[0] == 'p');
        lemma_seq_neq_at("cjs"@, "pyi"@, 0);
        assert("cjs"@.len() == 3);
        assert("cs"@.len() == 2);
        assert("cjs"@ != "cs"@);
    }
    if ext == "ts"@ {
        assert("ts"@.len() == 2);
        assert("rs"@.len() == 2);
        assert("ts"@[0] == 't');
        assert("rs"@[0] == 'r');
        lemma_seq_neq_at("ts"@, "rs"@, 0);
        assert("ts"@.len() == 2);
        assert("go"@.len() == 2);
        assert("ts"@[0] == 't');
        assert("go"@[0] == 'g');
        lemma_seq_neq_at("ts"@, "go"@, 0);
        assert("ts"@.len() == 2);
        assert("py"@.len() == 2);
        assert("ts"@[0] == 't');
        assert("py"@[0] == 'p');
        lemma_seq_neq_at("ts"@, "py"@, 0);
        assert("ts"@.len() == 2);
        assert("pyi"@.len() == 3);
        assert("ts"@ != "pyi"@);
        assert("ts"@.len() == 2);
        assert("js"@.len() == 2);
        assert("ts"@[0] == 't');
        assert("js"@[0] == 'j');
        lemma_seq_neq_at("ts"@, "js"@, 0);
        assert("ts"@.len() == 2);
        assert("jsx"@.len() == 3);
        assert("ts"@ != "jsx"@);
        assert("ts"@.len() == 2);
        assert("mjs"@.len() == 3);
        assert("ts"@ != "mjs"@);
        assert("ts"@.len() == 2);
        assert("cjs"@.len() == 3);
        assert("ts"@ != "cjs"@);
        assert("ts"@.len() == 2);
        assert("cs"@.len() == 2);
        assert("ts"@[0] == 't');
        assert("cs"@[0] == 'c');
        lemma_seq_neq_at("ts"@, "cs"@, 0);
    }
    if ext == "tsx"@ {
        assert("tsx"@.len() == 3);
        assert("rs"@.len() == 2);
        assert("tsx"@ != "rs"@);
        assert("tsx"@.len() == 3);
        assert("go"@.len() == 2);
        assert("tsx"@ != "go"@);
        assert("tsx"@.len() == 3);
        assert("py"@.len() == 2);
        assert("tsx"@ != "py"@);
        assert("tsx"@.len() == 3);
        assert("pyi"@.len() == 3);
        assert("tsx"@[0] == 't');
        assert("pyi"@[0] == 'p');
        lemma_seq_neq_at("tsx"@, "pyi"@, 0);
        assert("tsx"@.len() == 3);
        assert("js"@.len() == 2);
        assert("tsx"@ != "js"@);
        assert("tsx"@.len() == 3);
        assert("jsx"@.len() == 3);
        assert("tsx"@[0] == 't');
        assert("jsx"@[0] == 'j');
        lemma_seq_neq_at("tsx"@, "jsx"@, 0);
        assert("tsx"@.len() == 3);
        assert("mjs"@.len() == 3);
        assert("tsx"@[0] == 't');
        assert("mjs"@[0] == 'm');
        lemma_seq_neq_at("tsx"@, "mjs"@, 0);
        assert("tsx"@.len() == 3);
        assert("cjs"@.len() == 3);
        assert("tsx"@[0] == 't');
        assert("cjs"@[0] == 'c');
        lemma_seq_neq_at("tsx"@, "cjs"@, 0);
        assert("tsx"@.len() == 3);
        assert("cs"@.len() == 2);
        assert("tsx"@ != "cs"@);
    }
    if ext == "java"@ {
        assert("java"@.len() == 4);
        assert("rs"@.len() == 2);
        assert("java"@ != "rs"@);
        assert("java"@.len() == 4);
        assert("go"@.len() == 2);
        assert("java"@ != "go"@);
        assert("java"@.len() == 4);
        assert("py"@.len() == 2);
        assert("java"@ != "py"@);
        assert("java"@.len() == 4);
        assert("pyi"@.len() == 3);
        assert("java"@ != "pyi"@);
        assert("java"@.len() == 4);
        assert("js"@.len() == 2);
        assert("java"@ != "js"@);
        assert("java"@.len() == 4);
        assert("jsx"@.len() == 3);
        assert("java"@ != "jsx"@);
        assert("java"@.len() == 4);
        assert("mjs"@.len() == 3);
        assert("java"@ != "mjs"@);
        assert("java"@.len() == 4);
        assert("cjs"@.len() == 3);
        assert("java"@ != "cjs"@);
        assert("java"@.len() == 4);
        assert("ts"@.len() == 2);
        assert("java"@ != "ts"@);
        assert("java"@.len() == 4);
        assert("tsx"@.len() == 3);
        assert("java"@ != "tsx"@);
        assert("java"@.len() == 4);
        assert("cs"@.len() == 2);
        assert("java"@ != "cs"@);
    }
    if ext == "c"@ {
        assert("c"@.len() == 1);
        assert("rs"@.len() == 2);
        assert("c"@ != "rs"@);
        assert("c"@.len() == 1);
        assert("go"@.len() == 2);
        assert("c"@ != "go"@);
        assert("c"@.len() == 1);
        assert("py"@.len() == 2);
        assert("c"@ != "py"@);
        assert("c"@.len() == 1);
        assert("pyi"@.len() == 3);
        assert("c"@ != "pyi"@);
        assert("c"@.len() == 1);
        assert("js"@.len() == 2);
        assert("c"@ != "js"@);
        assert("c"@.len() == 1);
        assert("jsx"@.len() == 3);
        assert("c"@ != "jsx"@);
        assert("c"@.len() == 1);
        assert("mjs"@.len() == 3);
        assert("c"@ != "mjs"@);
        assert("c"@.len() == 1);
        assert("cjs"@.len() == 3);
        assert("c"@ != "cjs"@);
        assert("c"@.len() == 1);
        assert("ts"@.len() == 2);
        assert("c"@ != "ts"@);
        assert("c"@.len() == 1);
        assert("tsx"@.len() == 3);
        assert("c"@ != "tsx"@);
        assert("c"@.len() == 1);
        assert("java"@.len() == 4);
        assert("c"@ != "java"@);
        assert("c"@.len() == 1);
        assert("cs"@.len() == 2);
        assert("c"@ != "cs"@);
    }
    if ext == "h"@ {
        assert("h"@.len() == 1);
        assert("rs"@.len() == 2);
        assert("h"@ != "rs"@);
        assert("h"@.len() == 1);
        assert("go"@.len() == 2);
        assert("h"@ != "go"@);
        assert("h"@.len() == 1);
        assert("py"@.len() == 2);
        assert("h"@ != "py"@);
        assert("h"@.len() == 1);
        assert("pyi"@.len() == 3);
        assert("h"@ != "pyi"@);
        assert("h"@.len() == 1);
        assert("js"@.len() == 2);
        assert("h"@ != "js"@);
        assert("h"@.len() == 1);
        assert("jsx"@.len() == 3);
        assert("h"@ != "jsx"@);
        assert("h"@.len() == 1);
        assert("mjs"@.len() == 3);
        assert("h"@ != "mjs"@);
        assert("h"@.len() == 1);
        assert("cjs"@.len() == 3);
        assert("h"@ != "cjs"@);
        assert("h"@.len() == 1);
        assert("ts"@.len() == 2);
        assert("h"@ != "ts"@);
        assert("h"@.len() == 1);
        assert("tsx"@.len() == 3);
        assert("h"@ != "tsx"@);
        assert("h"@.len() == 1);
        assert("java"@.len() == 4);
        assert("h"@ != "java"@);
        assert("h"@.len() == 1);
        assert("cs"@.len() == 2);
        assert("h"@ != "cs"@);
    }
    if ext == "cpp"@ {
        assert("cpp"@.len() == 3);
        assert("rs"@.len() == 2);
        assert("cpp"@ != "rs"@);
        assert("cpp"@.len() == 3);
        assert("go"@.len() == 2);
        assert("cpp"@ != "go"@);
        assert("cpp"@.len() == 3);
        assert("py"@.len() == 2);
        assert("cpp"@ != "py"@);
        assert("cpp"@.len() == 3);
        assert("pyi"@.len() == 3);
        assert("cpp"@[0] == 'c');
        assert("pyi"@[0] == 'p');
        lemma_seq_neq_at("cpp"@, "pyi"@, 0);
        assert("cpp"@.len() == 3);
        assert("js"@.len() == 2);
        assert("cpp"@ != "js"@);
        assert("cpp"@.len() == 3);
        assert("jsx"@.len() == 3);
        assert("cpp"@[0] == 'c');
        assert("jsx"@[0] == 'j');
        lemma_seq_neq_at("cpp"@, "jsx"@, 0);
        assert("cpp"@.len() == 3);
        assert("mjs"@.len() == 3);
        assert("cpp"@[0] == 'c');
        assert("mjs"@[0] == 'm');
        lemma_seq_neq_at("cpp"@, "mjs"@, 0);
        assert("cpp"@.len() == 3);
        assert("cjs"@.len() == 3);
        assert("cpp"@[1] == 'p');
        assert("cjs"@[1] == 'j');
        lemma_seq_neq_at("cpp"@, "cjs"@, 1);
        assert("cpp"@.len() == 3);
        assert("ts"@.len() == 2);
        assert("cpp"@ != "ts"@);
        assert("cpp"@.len() == 3);
        assert("tsx"@.len() == 3);
        assert("cpp"@[0] == 'c');
        assert("tsx"@[0] == 't');
        lemma_seq_neq_at("cpp"@, "tsx"@, 0);
        assert("cpp"@.len() == 3);
        assert("java"@.len() == 4);
        assert("cpp"@ != "java"@);
        assert("cpp"@.len() == 3);
        assert("c"@.len() == 1);
        assert("cpp"@ != "c"@);
        assert("cpp"@.len() == 3);
        assert("h"@.len() == 1);
        assert("cpp"@ != "h"@);
        assert("cpp"@.len() == 3);
        assert("cs"@.len() == 2);
        assert("cpp"@ != "cs"@);
    }
    if ext == "cxx"@ {
        assert("cxx"@.len() == 3);
        assert("rs"@.len() == 2);
        assert("cxx"@ != "rs"@);
        assert("cxx"@.len() == 3);
        assert("go"@.len() == 2);
        assert("cxx"@ != "go"@);
        assert("cxx"@.len() == 3);
        assert("py"@.len() == 2);
        assert("cxx"@ != "py"@);
        assert("cxx"@.len() == 3);
        assert("pyi"@.len() == 3);
        assert("cxx"@[0] == 'c');
        assert("pyi"@[0] == 'p');
        lemma_seq_neq_at("cxx"@, "pyi"@, 0);
        assert("cxx"@.len() == 3);
        assert("js"@.len() == 2);
        assert("cxx"@ != "js"@);
        assert("cxx"@.len() == 3);
        assert("jsx"@.len() == 3);
        assert("cxx"@[0] == 'c');
        assert("jsx"@[0] == 'j');
        lemma_seq_neq_at("cxx"@, "jsx"@, 0);
        assert("cxx"@.len() == 3);
        assert("mjs"@.len() == 3);
        assert("cxx"@[0] == 'c');
        assert("mjs"@[0] == 'm');
        lemma_seq_neq_at("cxx"@, "mjs"@, 0);
        assert("cxx"@.len() == 3);
        assert("cjs"@.len() == 3);
        assert("cxx"@[1] == 'x');
        assert("cjs"@[1] == 'j');
        lemma_seq_neq_at("cxx"@, "cjs"@, 1);
        assert("cxx"@.len() == 3);
        assert("ts"@.len() == 2);
        assert("cxx"@ != "ts"@);
        assert("cxx"@.len() == 3);
        assert("tsx"@.len() == 3);
        assert("cxx"@[0] == 'c');
        assert("tsx"@[0] == 't');
        lemma_seq_neq_at("cxx"@, "tsx"@, 0);
        assert("cxx"@.len() == 3);
        assert("java"@.len() == 4);
        assert("cxx"@ != "java"@);
        assert("cxx"@.len() == 3);
        assert("c"@.len() == 1);
        assert("cxx"@ != "c"@);
        assert("cxx"@.len() == 3);
        assert("h"@.len() == 1);
        assert("cxx"@ != "h"@);
        assert("cxx"@.len() == 3);
        assert("cs"@.len() == 2);
        assert("cxx"@ != "cs"@);
    }
    if ext == "cc"@ {
        assert("cc"@.len() == 2);
        assert("rs"@.len() == 2);
        assert("cc"@[0] == 'c');
        assert("rs"@[0] == 'r');
        lemma_seq_neq_at("cc"@, "rs"@, 0);
        assert("cc"@.len() == 2);
        assert("go"@.len() == 2);
        assert("cc"@[0] == 'c');
        assert("go"@[0] == 'g');
        lemma_seq_neq_at("cc"@, "go"@, 0);
        assert("cc"@.len() == 2);
        assert("py"@.len() == 2);
        assert("cc"@[0] == 'c');
        assert("py"@[0] == 'p');
        lemma_seq_neq_at("cc"@, "py"@, 0);
        assert("cc"@.len() == 2);
        assert("pyi"@.len() == 3);
        assert("cc"@ != "pyi"@);
        assert("cc"@.len() == 2);
        assert("js"@.len() == 2);
        assert("cc"@[0] == 'c');
        assert("js"@[0] == 'j');
        lemma_seq_neq_at("cc"@, "js"@, 0);
        assert("cc"@.len() == 2);
        assert("jsx"@.len() == 3);
        assert("cc"@ != "jsx"@);
        assert("cc"@.len() == 2);
        assert("mjs"@.len() == 3);
        assert("cc"@ != "mjs"@);
        assert("cc"@.len() == 2);
        assert("cjs"@.len() == 3);
        assert("cc"@ != "cjs"@);
        assert("cc"@.len() == 2);
        assert("ts"@.len() == 2);
        assert("cc"@[0] == 'c');
        assert("ts"@[0] == 't');
        lemma_seq_neq_at("cc"@, "ts"@, 0);
        assert("cc"@.len() == 2);
        assert("tsx"@.len() == 3);
        assert("cc"@ != "tsx"@);
        assert("cc"@.len() == 2);
        assert("java"@.len() == 4);
        assert("cc"@ != "java"@);
        assert("cc"@.len() == 2);
        assert("c"@.len() == 1);
        assert("cc"@ != "c"@);
        assert("cc"@.len() == 2);
        assert("h"@.len() == 1);
        assert("cc"@ != "h"@);
        assert("cc"@.len() == 2);
        assert("cs"@.len() == 2);
        assert("cc"@[1] == 'c');
        assert("cs"@[1] == 's');
        lemma_seq_neq_at("cc"@, "cs"@, 1);
    }
    if ext == "hpp"@ {
        assert("hpp"@.len() == 3);
        assert("rs"@.len() == 2);
        assert("hpp"@ != "rs"@);
        assert("hpp"@.len() == 3);
        assert("go"@.len() == 2);
        assert("hpp"@ != "go"@);
        assert("hpp"@.len() == 3);
        assert("py"@.len() == 2);
        assert("hpp"@ != "py"@);
        assert("hpp"@.len() == 3);
        assert("pyi"@.len() == 3);
        assert("hpp"@[0] == 'h');
        assert("pyi"@[0] == 'p');
        lemma_seq_neq_at("hpp"@, "pyi"@, 0);
        assert("hpp"@.len() == 3);
        assert("js"@.len() == 2);
        assert("hpp"@ != "js"@);
        assert("hpp"@.len() == 3);
        assert("jsx"@.len() == 3);
        assert("hpp"@[0] == 'h');
        assert("jsx"@[0] == 'j');
        lemma_seq_neq_at("hpp"@, "jsx"@, 0);
        assert("hpp"@.len() == 3);
        assert("mjs"@.len() == 3);
        assert("hpp"@[0] == 'h');
        assert("mjs"@[0] == 'm');
        lemma_seq_neq_at("hpp"@, "mjs"@, 0);
        assert("hpp"@.len() == 3);
        assert("cjs"@.len() == 3);
        assert("hpp"@[0] == 'h');
        assert("cjs"@[0] == 'c');
        lemma_seq_neq_at("hpp"@, "cjs"@, 0);
        assert("hpp"@.len() == 3);
        assert("ts"@.len() == 2);
        assert("hpp"@ != "ts"@);
        assert("hpp"@.len() == 3);
        assert("tsx"@.len() == 3);
        assert("hpp"@[0] == 'h');
        assert("tsx"@[0] == 't');
        lemma_seq_neq_at("hpp"@, "tsx"@, 0);
        assert("hpp"@.len() == 3);
        assert("java"@.len() == 4);
        assert("hpp"@ != "java"@);
        assert("hpp"@.len() == 3);
        assert("c"@.len() == 1);
        assert("hpp"@ != "c"@);
        assert("hpp"@.len() == 3);
        assert("h"@.len() == 1);
        assert("hpp"@ != "h"@);
        assert("hpp"@.len() == 3);
        assert("cs"@.len() == 2);
        assert("hpp"@ != "cs"@);
    }
    if ext == "hxx"@ {
        assert("hxx"@.len() == 3);
        assert("rs"@.len() == 2);
        assert("hxx"@ != "rs"@);
        assert("hxx"@.len() == 3);
        assert("go"@.len() == 2);
        assert("hxx"@ != "go"@);
        assert("hxx"@.len() == 3);
        assert("py"@.len() == 2);
        assert("hxx"@ != "py"@);
        assert("hxx"@.len() == 3);
        assert("pyi"@.len() == 3);
        assert("hxx"@[0] == 'h');
        assert("pyi"@[0] == 'p');
        lemma_seq_neq_at("hxx"@, "pyi"@, 0);
        assert("hxx"@.len() == 3);
        assert("js"@.len() == 2);
        assert("hxx"@ != "js"@);
        assert("hxx"@.len() == 3);
        assert("jsx"@.len() == 3);
        assert("hxx"@[0] == 'h');
        assert("jsx"@[0] == 'j');
        lemma_seq_neq_at("hxx"@, "jsx"@, 0);
        assert("hxx"@.len() == 3);
        assert("mjs"@.len() == 3);
        assert("hxx"@[0] == 'h');
        assert("mjs"@[0] == 'm');
        lemma_seq_neq_at("hxx"@, "mjs"@, 0);
        assert("hxx"@.len() == 3);
        assert("cjs"@.len() == 3);
        assert("hxx"@[0] == 'h');
        assert("cjs"@[0] == 'c');
        lemma_seq_neq_at("hxx"@, "cjs"@, 0);
        assert("hxx"@.len() == 3);
        assert("ts"@.len() == 2);
        assert("hxx"@ != "ts"@);
        assert("hxx"@.len() == 3);
        assert("tsx"@.len() == 3);
        assert("hxx"@[0] == 'h');
        assert("tsx"@[0] == 't');
        lemma_seq_neq_at("hxx"@, "tsx"@, 0);
        assert("hxx"@.len() == 3);
        assert("java"@.len() == 4);
        assert("hxx"@ != "java"@);
        assert("hxx"@.len() == 3);
        assert("c"@.len() == 1);
        assert("hxx"@ != "c"@);
        assert("hxx"@.len() == 3);
        assert("h"@.len() == 1);
        assert("hxx"@ != "h"@);
        assert("hxx"@.len() == 3);
        assert("cs"@.len() == 2);
        assert("hxx"@ != "cs"@);
    }
    if ext == "hh"@ {
        assert("hh"@.len() == 2);
        assert("rs"@.len() == 2);
        assert("hh"@[0] == 'h');
        assert("rs"@[0] == 'r');
        lemma_seq_neq_at("hh"@, "rs"@, 0);
        assert("hh"@.len() == 2);
        assert("go"@.len() == 2);
        assert("hh"@[0] == 'h');
        assert("go"@[0] == 'g');
        lemma_seq_neq_at("hh"@, "go"@, 0);
        assert("hh"@.len() == 2);
        assert("py"@.len() == 2);
        assert("hh"@[0] == 'h');
        assert("py"@[0] == 'p');
        lemma_seq_neq_at("hh"@, "py"@, 0);
        assert("hh"@.len() == 2);
        assert("pyi"@.len() == 3);
        assert("hh"@ != "pyi"@);
        assert("hh"@.len() == 2);
        assert("js"@.len() == 2);
        assert("hh"@[0] == 'h');
        assert("js"@[0] == 'j');
        lemma_seq_neq_at("hh"@, "js"@, 0);
        assert("hh"@.len() == 2);
        assert("jsx"@.len() == 3);
        assert("hh"@ != "jsx"@);
        assert("hh"@.len() == 2);
        assert("mjs"@.len() == 3);
        assert("hh"@ != "mjs"@);
        assert("hh"@.len() == 2);
        assert("cjs"@.len() == 3);
        assert("hh"@ != "cjs"@);
        assert("hh"@.len() == 2);
        assert("ts"@.len() == 2);
        assert("hh"@[0] == 'h');
        assert("ts"@[0] == 't');
        lemma_seq_neq_at("hh"@, "ts"@, 0);
        assert("hh"@.len() == 2);
        assert("tsx"@.len() == 3);
        assert("hh"@ != "tsx"@);
        assert("hh"@.len() == 2);
        assert("java"@.len() == 4);
        assert("hh"@ != "java"@);
        assert("hh"@.len() == 2);
        assert("c"@.len() == 1);
        assert("hh"@ != "c"@);
        assert("hh"@.len() == 2);
        assert("h"@.len() == 1);
        assert("hh"@ != "h"@);
        assert("hh"@.len() == 2);
        assert("cs"@.len() == 2);
        assert("hh"@[0] == 'h');
        assert("cs"@[0] == 'c');
        lemma_seq_neq_at("hh"@, "cs"@, 0);
    }
    if ext == "cs"@ {
        assert("cs"@.len() == 2);
        assert("rs"@.len() == 2);
        assert("cs"@[0] == 'c');
        assert("rs"@[0] == 'r');
        lemma_seq_neq_at("cs"@, "rs"@, 0);
        assert("cs"@.len() == 2);
        assert("go"@.len() == 2);
        assert("cs"@[0] == 'c');
        assert("go"@[0] == 'g');
        lemma_seq_neq_at("cs"@, "go"@, 0);
        assert("cs"@.len() == 2);
        assert("py"@.len() == 2);
        assert("cs"@[0] == 'c');
        assert("py"@[0] == 'p');
        lemma_seq_neq_at("cs"@, "py"@, 0);
        assert("cs"@.len() == 2);
        assert("pyi"@.len() == 3);
        assert("cs"@ != "pyi"@);
        assert("cs"@.len() == 2);
        assert("js"@.len() == 2);
        assert("cs"@[0] == 'c');
        assert("js"@[0] == 'j');
        lemma_seq_neq_at("cs"@, "js"@, 0);
        assert("cs"@.len() == 2);
        assert("jsx"@.len() == 3);
        assert("cs"@ != "jsx"@);
        assert("cs"@.len() == 2);
        assert("mjs"@.len() == 3);
        assert("cs"@ != "mjs"@);
        assert("cs"@.len() == 2);
        assert("cjs"@.len() == 3);
        assert("cs"@ != "cjs"@);
        assert("cs"@.len() == 2);
        assert("ts"@.len() == 2);
        assert("cs"@[0] == 'c');
        assert("ts"@[0] == 't');
        lemma_seq_neq_at("cs"@, "ts"@, 0);
        assert("cs"@.len() == 2);
        assert("tsx"@.len() == 3);
        assert("cs"@ != "tsx"@);
        assert("cs"@.len() == 2);
        assert("java"@.len() == 4);
        assert("cs"@ != "java"@);
        assert("cs"@.len() == 2);
        assert("c"@.len() == 1);
        assert("cs"@ != "c"@);
        assert("cs"@.len() == 2);
        assert("h"@.len() == 1);
        assert("cs"@ != "h"@);
        assert("cs"@.len() == 2);
        assert("cpp"@.len() == 3);
        assert("cs"@ != "cpp"@);
        assert("cs"@.len() == 2);
        assert("cxx"@.len() == 3);
        assert("cs"@ != "cxx"@);
        assert("cs"@.len() == 2);
        assert("cc"@.len() == 2);
        assert("cs"@[1] == 's');
        assert("cc"@[1] == 'c');
        lemma_seq_neq_at("cs"@, "cc"@, 1);
        assert("cs"@.len() == 2);
        assert("hpp"@.len() == 3);
        assert("cs"@ != "hpp"@);
        assert("cs"@.len() == 2);
        assert("hxx"@.len() == 3);
        assert("cs"@ != "hxx"@);
        assert("cs"@.len() == 2);
        assert("hh"@.len() == 2);
        assert("cs"@[0] == 'c');
        assert("hh"@[0] == 'h');
        lemma_seq_neq_at("cs"@, "hh"@, 0);
    }
    if ext == "rb"@ {
        assert("rb"@.len() == 2);
        assert("rs"@.len() == 2);
        assert("rb"@[1] == 'b');
        assert("rs"@[1] == 's');
        lemma_seq_neq_at("rb"@, "rs"@, 1);
        assert("rb"@.len() == 2);
        assert("go"@.len() == 2);
        assert("rb"@[0] == 'r');
        assert("go"@[0] == 'g');
        lemma_seq_neq_at("rb"@, "go"@, 0);
        assert("rb"@.len() == 2);
        assert("py"@.len() == 2);
        assert("rb"@[0] == 'r');
        assert("py"@[0] == 'p');
        lemma_seq_neq_at("rb"@, "py"@, 0);
        assert("rb"@.len() == 2);
        assert("pyi"@.len() == 3);
        assert("rb"@ != "pyi"@);
        assert("rb"@.len() == 2);
        assert("js"@.len() == 2);
        assert("rb"@[0] == 'r');
        assert("js"@[0] == 'j');
        lemma_seq_neq_at("rb"@, "js"@, 0);
        assert("rb"@.len() == 2);
        assert("jsx"@.len() == 3);
        assert("rb"@ != "jsx"@);
        assert("rb"@.len() == 2);
        assert("mjs"@.len() == 3);
        assert("rb"@ != "mjs"@);
        assert("rb"@.len() == 2);
        assert("cjs"@.len() == 3);
        assert("rb"@ != "cjs"@);
        assert("rb"@.len() == 2);
        assert("ts"@.len() == 2);
        assert("rb"@[0] == 'r');
        assert("ts"@[0] == 't');
        lemma_seq_neq_at("rb"@, "ts"@, 0);
        assert("rb"@.len() == 2);
        assert("tsx"@.len() == 3);
        assert("rb"@ != "tsx"@);
        assert("rb"@.len() == 2);
        assert("java"@.len() == 4);
        assert("rb"@ != "java"@);
        assert("rb"@.len() == 2);
        assert("c"@.len() == 1);
        assert("rb"@ != "c"@);
        assert("rb"@.len() == 2);
        assert("h"@.len() == 1);
        assert("rb"@ != "h"@);
        assert("rb"@.len() == 2);
        assert("cpp"@.len() == 3);
        assert("rb"@ != "cpp"@);
        assert("rb"@.len() == 2);
        assert("cxx"@.len() == 3);
        assert("rb"@ != "cxx"@);
        assert("rb"@.len() == 2);
        assert("cc"@.len() == 2);
        assert("rb"@[0] == 'r');
        assert("cc"@[0] == 'c');
        lemma_seq_neq_at("rb"@, "cc"@, 0);
        assert("rb"@.len() == 2);
        assert("hpp"@.len() == 3);
        assert("rb"@ != "hpp"@);
        assert("rb"@.len() == 2);
        assert("hxx"@.len() == 3);
        assert("rb"@ != "hxx"@);
        assert("rb"@.len() == 2);
        assert("hh"@.len() == 2);
        assert("rb"@[0] == 'r');
        assert("hh"@[0] == 'h');
        lemma_seq_neq_at("rb"@, "hh"@, 0);
        assert("rb"@.len() == 2);
        assert("cs"@.len() == 2);
        assert("rb"@[0] == 'r');
        assert("cs"@[0] == 'c');
        lemma_seq_neq_at("rb"@, "cs"@, 0);
    }
}

/// The one registry language without a grammar.
proof fn lemma_csharp_no_grammar()
    ensures
        !has_grammar_name_spec("C#"@),
{
    reveal_strlit("C#");
    reveal_strlit("Rust");
    reveal_strlit("JavaScript");
    reveal_strlit("TypeScript");
    reveal_strlit("Python");
    reveal_strlit("Go");
    reveal_strlit("Java");
    reveal_strlit("C");
    reveal_strlit("C++");
    reveal_strlit("Ruby");
    assert("C#"@.len() == 2);
    assert("Rust"@.len() == 4);
    assert("C#"@ != "Rust"@);
    assert("C#"@.len() == 2);
    assert("JavaScript"@.len() == 10);
    assert("C#"@ != "JavaScript"@);
    assert("C#"@.len() == 2);
    assert("TypeScript"@.len() == 10);
    assert("C#"@ != "TypeScript"@);
    assert("C#"@.len() == 2);
    assert("Python"@.len() == 6);
    assert("C#"@ != "Python"@);
    assert("C#"@.len() == 2);
    assert("Go"@.len() == 2);
    assert("C#"@[0] == 'C');
    assert("Go"@[0] == 'G');
    lemma_seq_neq_at("C#"@, "Go"@, 0);
    assert("C#"@.len() == 2);
    assert("Java"@.len() == 4);
    assert("C#"@ != "Java"@);
    assert("C#"@.len() == 2);
    assert("C"@.len() == 1);
    assert("C#"@ != "C"@);
    assert("C#"@.len() == 2);
    assert("C++"@.len() == 3);
    assert("C#"@ != "C++"@);
    assert("C#"@.len() == 2);
    assert("Ruby"@.len() == 4);
    assert("C#"@ != "Ruby"@);
}

/// Languages with equal content agree on their block delimiters.
proof fn lemma_lang_eqv_block(a: LanguageRule, b: LanguageRule)
    requires
        lang_eqv(a, b),
    ensures
        lang_block(a) == lang_block(b),
{
    match (a.block_comment_start, a.block_comment_end) {
        (Some(x), Some(y)) => {
            assert(b.block_comment_start is Some && b.block_comment_end is Some);
        },
        _ => {},
    }
}

/// Looks the extension up in the registry and relates the found language's
/// rules to the canonical per-extension rules.
pub(crate) fn rules_for_ext(db: &LanguageDatabase, ext: &str) -> (r: Option<LanguageRule>)
    requires
        db_wf(db.languages@),
    ensures
        match r {
            Some(l) => ext_rules(ext@) == Some((views_of(l.line_comments@), lang_block(l)))
                && l.name@ == name_of_rules(ext@) && (has_grammar_name_spec(l.name@) <==> ext@
                != "cs"@),
            None => ext_rules(ext@) is None,
        },
{
    let r = db.from_extension(ext);
    proof {
        reveal_strlit("rs");
        reveal_strlit("go");
        reveal_strlit("py");
        reveal_strlit("pyi");
        reveal_strlit("js");
        reveal_strlit("jsx");
        reveal_strlit("mjs");
        reveal_strlit("cjs");
        reveal_strlit("ts");
        reveal_strlit("tsx");
        reveal_strlit("java");
        reveal_strlit("c");
        reveal_strlit("h");
        reveal_strlit("cpp");
        reveal_strlit("cxx");
        reveal_strlit("cc");
        reveal_strlit("hpp");
        reveal_strlit("hxx");
        reveal_strlit("hh");
        reveal_strlit("cs");
        reveal_strlit("rb");
        let langs = db.languages@;
        match &r {
            Some(l) => {
                let i = choose|i: int|
                    0 <= i < langs.len() && lang_has_ext(langs[i], ext@) && lang_eqv(*l, langs[i])
                        && (forall|k: int| 0 <= k < i ==> !lang_has_ext(langs[k], ext@));
                let j = choose|j: int|
                    0 <= j < langs[i].extensions@.len() && langs[i].extensions@[j]@ == ext@;
                assert(langs[i].extensions@[j]@ == views_of(langs[i].extensions@)[j]);
                lemma_lang_eqv_block(*l, langs[i]);
                assert(db_wf(langs));
                if i == 0 {
                    assert(is_rust_lang(langs[0]));
                    assert(views_of(langs[0].extensions@) == seq!["rs"@]);
                    assert(views_of(langs[0].extensions@).len() == 1);
                    assert(langs[0].extensions@.len() == 1);
                    assert(ext@ == views_of(langs[0].extensions@)[j]);
                    assert(ext@ == "rs"@);
                    lemma_slash_ext_not_hash(ext@);
                    assert(ext_rules(ext@) == Some((seq!["//"@], Some(("/*"@, "*/"@)))));
                    assert(views_of(l.line_comments@) == seq!["//"@]);
                    assert(lang_block(*l) == Some(("/*"@, "*/"@)));
                } else if i == 1 {
                    assert(is_go_lang(langs[1]));
                    assert(views_of(langs[1].extensions@).len() == 1);
                    assert(langs[1].extensions@.len() == 1);
                    assert(ext@ == views_of(langs[1].extensions@)[j]);
                    assert(ext@ == "go"@);
                    lemma_slash_ext_not_hash(ext@);
                    assert(ext_rules(ext@) == Some((seq!["//"@], Some(("/*"@, "*/"@)))));
                    assert(views_of(l.line_comments@) == seq!["//"@]);
                    assert(lang_block(*l) == Some(("/*"@, "*/"@)));
                } else if i == 2 {
                    assert(is_python_lang(langs[2]));
                    assert(views_of(langs[2].extensions@).len() == 2);
                    assert(langs[2].extensions@.len() == 2);
                    assert(ext@ == views_of(langs[2].extensions@)[j]);
                    assert(ext@ == "py"@ || ext@ == "pyi"@);
                    assert(ext_rules(ext@) == Some((seq!["#"@], None::<(Seq<char>, Seq<char>)>)));
                    assert(views_of(l.line_comments@) == seq!["#"@]);
                    assert(lang_block(*l) is None);
                } else if i == 3 {
                    assert(is_javascript_lang(langs[3]));
                    assert(views_of(langs[3].extensions@).len() == 4);
                    assert(langs[3].extensions@.len() == 4);
                    assert(ext@ == views_of(langs[3].extensions@)[j]);
                    assert(ext@ == "js"@ || ext@ == "jsx"@ || ext@ == "mjs"@ || ext@ == "cjs"@);
                    lemma_slash_ext_not_hash(ext@);
                    assert(ext_rules(ext@) == Some((seq!["//"@], Some(("/*"@, "*/"@)))));
                    assert(views_of(l.line_comments@) == seq!["//"@]);
                    assert(lang_block(*l) == Some(("/*"@, "*/"@)));
                } else if i == 4 {
                    assert(is_typescript_lang(langs[4]));
                    assert(views_of(langs[4].extensions@).len() == 2);
                    assert(langs[4].extensions@.len() == 2);
                    assert(ext@ == views_of(langs[4].extensions@)[j]);
                    assert(ext@ == "ts"@ || ext@ == "tsx"@);
                    lemma_slash_ext_not_hash(ext@);
                    assert(ext_rules(ext@) == Some((seq!["//"@], Some(("/*"@, "*/"@)))));
                    assert(views_of(l.line_comments@) == seq!["//"@]);
                    assert(lang_block(*l) == Some(("/*"@, "*/"@)));
                } else if i == 5 {
                    assert(is_java_lang(langs[5]));
                    assert(views_of(langs[5].extensions@).len() == 1);
                    assert(langs[5].extensions@.len() == 1);
                    assert(ext@ == views_of(langs[5].extensions@)[j]);
                    assert(ext@ == "java"@);
                    lemma_slash_ext_not_hash(ext@);
                    assert(ext_rules(ext@) == Some((seq!["//"@], Some(("/*"@, "*/"@)))));
                    assert(views_of(l.line_comments@) == seq!["//"@]);
                    assert(lang_block(*l) == Some(("/*"@, "*/"@)));
                } else if i == 6 {
                    assert(is_c_lang(langs[6]));
                    assert(views_of(langs[6].extensions@).len() == 2);
                    assert(langs[6].extensions@.len() == 2);
                    assert(ext@ == views_of(langs[6].extensions@)[j]);
                    assert(ext@ == "c"@ || ext@ == "h"@);
                    lemma_slash_ext_not_hash(ext@);
                    assert(ext_rules(ext@) == Some((seq!["//"@], Some(("/*"@, "*/"@)))));
                    assert(views_of(l.line_comments@) == seq!["//"@]);
                    assert(lang_block(*l) == Some(("/*"@, "*/"@)));
                } else if i == 7 {
                    assert(is_cpp_lang(langs[7]));
                    assert(views_of(langs[7].extensions@).len() == 6);
                    assert(langs[7].extensions@.len() == 6);
                    assert(ext@ == views_of(langs[7].extensions@)[j]);
                    assert(ext@ == "cpp"@ || ext@ == "cxx"@ || ext@ == "cc"@ || ext@ == "hpp"@
                        || ext@ == "hxx"@ || ext@ == "hh"@);
                    lemma_slash_ext_not_hash(ext@);
                    assert(ext_rules(ext@) == Some((seq!["//"@], Some(("/*"@, "*/"@)))));
                    assert(views_of(l.line_comments@) == seq!["//"@]);
                    assert(lang_block(*l) == Some(("/*"@, "*/"@)));
                } else if i == 8 {
                    assert(is_csharp_lang(langs[8]));
                    assert(views_of(langs[8].extensions@).len() == 1);
                    assert(langs[8].extensions@.len() == 1);
                    assert(ext@ == views_of(langs[8].extensions@)[j]);
                    assert(ext@ == "cs"@);
                    lemma_slash_ext_not_hash(ext@);
                    assert(ext_rules(ext@) == Some((seq!["//"@], Some(("/*"@, "*/"@)))));
                    assert(views_of(l.line_comments@) == seq!["//"@]);
                    assert(lang_block(*l) == Some(("/*"@, "*/"@)));
                } else {
                    assert(i == 9);
                    assert(is_ruby_lang(langs[9]));
                    assert(views_of(langs[9].extensions@).len() == 1);
                    assert(langs[9].extensions@.len() == 1);
                    assert(ext@ == views_of(langs[9].extensions@)[j]);
                    assert(ext@ == "rb"@);
                    assert(ext_rules(ext@) == Some((seq!["#"@], None::<(Seq<char>, Seq<char>)>)));
                    assert(views_of(l.line_comments@) == seq!["#"@]);
                    assert(lang_block(*l) is None);
                }
                lemma_name_of_rules_eval(ext@);
                assert(l.name@ == langs[i].name@);
                if i == 0 {
                    assert(l.name@ == "Rust"@ && name_of_rules(ext@) == "Rust"@);
                } else if i == 1 {
                    assert(l.name@ == "Go"@ && name_of_rules(ext@) == "Go"@);
                } else if i == 2 {
                    assert(l.name@ == "Python"@ && name_of_rules(ext@) == "Python"@);
                } else if i == 3 {
                    assert(l.name@ == "JavaScript"@ && name_of_rules(ext@) == "JavaScript"@);
                } else if i == 4 {
                    assert(l.name@ == "TypeScript"@ && name_of_rules(ext@) == "TypeScript"@);
                } else if i == 5 {
                    assert(l.name@ == "Java"@ && name_of_rules(ext@) == "Java"@);
                } else if i == 6 {
                    assert(l.name@ == "C"@ && name_of_rules(ext@) == "C"@);
                } else if i == 7 {
                    assert(l.name@ == "C++"@ && name_of_rules(ext@) == "C++"@);
                } else if i == 8 {
                    assert(l.name@ == "C#"@ && name_of_rules(ext@) == "C#"@);
                    lemma_csharp_no_grammar();
                } else {
                    assert(l.name@ == "Ruby"@ && name_of_rules(ext@) == "Ruby"@);
                }
                assert(ext_rules(ext@) == Some(
                    (views_of(l.line_comments@), lang_block(*l)),
                ));
            },
            None => {
                assert(db_wf(langs));
                assert(ext_rules(ext@) is None) by {
                    if ext@ == "py"@ || ext@ == "pyi"@ {
                        assert(views_of(langs[2].extensions@).len() == 2);
                        assert(langs[2].extensions@.len() == 2);
                        assert(views_of(langs[2].extensions@).contains(ext@));
                        assert(exists|j: int|
                            0 <= j < langs[2].extensions@.len() && views_of(langs[2].extensions@)[j]
                                == ext@);
                        let j = choose|j: int|
                            0 <= j < langs[2].extensions@.len() && views_of(
                                langs[2].extensions@,
                            )[j] == ext@;
                        assert(langs[2].extensions@[j]@ == ext@);
                        assert(lang_has_ext(langs[2], ext@));
                    } else if ext@ == "rb"@ {
                        assert(views_of(langs[9].extensions@).len() == 1);
                        assert(langs[9].extensions@.len() == 1);
                        assert(langs[9].extensions@[0]@ == views_of(langs[9].extensions@)[0]);
                        assert(lang_has_ext(langs[9], ext@));
                    } else if ext@ == "rs"@ {
                        assert(views_of(langs[0].extensions@).len() == 1);
                        assert(langs[0].extensions@.len() == 1);
                        assert(langs[0].extensions@[0]@ == views_of(langs[0].extensions@)[0]);
                        assert(lang_has_ext(langs[0], ext@));
                    } else if ext@ == "go"@ {
                        assert(views_of(langs[1].extensions@).len() == 1);
                        assert(langs[1].extensions@.len() == 1);
                        assert(langs[1].extensions@[0]@ == views_of(langs[1].extensions@)[0]);
                        assert(lang_has_ext(langs[1], ext@));
                    } else if ext@ == "js"@ || ext@ == "jsx"@ || ext@ == "mjs"@ || ext@
                        == "cjs"@ {
                        assert(views_of(langs[3].extensions@).len() == 4);
                        assert(langs[3].extensions@.len() == 4);
                        assert(views_of(langs[3].extensions@).contains(ext@));
                        let j = choose|j: int|
                            0 <= j < langs[3].extensions@.len() && views_of(
                                langs[3].extensions@,
                            )[j] == ext@;
                        assert(langs[3].extensions@[j]@ == ext@);
                        assert(lang_has_ext(langs[3], ext@));
                    } else if ext@ == "ts"@ || ext@ == "tsx"@ {
                        assert(views_of(langs[4].extensions@).len() == 2);
                        assert(langs[4].extensions@.len() == 2);
                        assert(views_of(langs[4].extensions@).contains(ext@));
                        let j = choose|j: int|
                            0 <= j < langs[4].extensions@.len() && views_of(
                                langs[4].extensions@,
                            )[j] == ext@;
                        assert(langs[4].extensions@[j]@ == ext@);
                        assert(lang_has_ext(langs[4], ext@));
                    } else if ext@ == "java"@ {
                        assert(views_of(langs[5].extensions@).len() == 1);
                        assert(langs[5].extensions@.len() == 1);
                        assert(langs[5].extensions@[0]@ == views_of(langs[5].extensions@)[0]);
                        assert(lang_has_ext(langs[5], ext@));
                    } else if ext@ == "c"@ || ext@ == "h"@ {
                        assert(views_of(langs[6].extensions@).len() == 2);
                        assert(langs[6].extensions@.len() == 2);
                        assert(views_of(langs[6].extensions@).contains(ext@));
                        let j = choose|j: int|
                            0 <= j < langs[6].extensions@.len() && views_of(
                                langs[6].extensions@,
                            )[j] == ext@;
                        assert(langs[6].extensions@[j]@ == ext@);
                        assert(lang_has_ext(langs[6], ext@));
                    } else if ext@ == "cpp"@ || ext@ == "cxx"@ || ext@ == "cc"@ || ext@ == "hpp"@
                        || ext@ == "hxx"@ || ext@ == "hh"@ {
                        assert(views_of(langs[7].extensions@).len() == 6);
                        assert(langs[7].extensions@.len() == 6);
                        assert(views_of(langs[7].extensions@).contains(ext@));
                        let j = choose|j: int|
                            0 <= j < langs[7].extensions@.len() && views_of(
                                langs[7].extensions@,
                            )[j] == ext@;
                        assert(langs[7].extensions@[j]@ == ext@);
                        assert(lang_has_ext(langs[7], ext@));
                    } else if ext@ == "cs"@ {
                        assert(views_of(langs[8].extensions@).len() == 1);
                        assert(langs[8].extensions@.len() == 1);
                        assert(langs[8].extensions@[0]@ == views_of(langs[8].extensions@)[0]);
                        assert(lang_has_ext(langs[8], ext@));
                    }
                }
            },
        }
    }
    r
}

/// The candidates a whole text yields for a file with the given extension:
/// lines are scanned under the extension's comment rules, or all lines when
/// the extension is unknown.
pub open spec fn scan_of(content: Seq<char>, ext: Seq<char>) -> Seq<CandV> {
    match ext_rules(ext) {
        Some(rules) => scan_lines(lines_of(content), 0, 0, true, rules.0, rules.1),
        None => scan_lines(lines_of(content), 0, 0, false, Seq::empty(), None),
    }
}

/// The lexical candidate extractor. It owns the language registry and scans
/// text it is handed; reading files is its caller's concern.
pub struct RegexScanner {
    language_db: LanguageDatabase,
}

impl RegexScanner {
    /// The registry the scanner was built with is the canonical catalogue.
    pub closed spec fn wf(&self) -> bool {
        db_wf(self.language_db.languages@)
    }

    /// Builds a scanner over the fixed language catalogue. Construction
    /// always succeeds.
    pub fn new() -> (r: Result<RegexScanner, TodoError>)
        ensures
            r is Ok,
            r matches Ok(sc) ==> sc.wf(),
    {
        Ok(RegexScanner { language_db: LanguageDatabase::new() })
    }

    /// Scans one file's text. Every candidate on every in-comment line is
    /// returned, in line order; the file path is recorded verbatim on each
    /// item, and no git enrichment is attached.
    #[verifier::rlimit(100)]
    pub fn scan_content(&self, path: &str, content: &str) -> (items: Vec<TodoItem>)
        requires
            self.wf(),
        ensures
            cands_of(items@) == scan_of(content@, ext_of_path(path@)),
            items_wf(items@, path@),
    {
        let ext = path_extension(path);
        let lang_opt = rules_for_ext(&self.language_db, ext.as_str());
        let clen = content.unicode_len();
        let lines = split_lines(content);
        let ghost linesv = lines_of(content@);
        let ghost has_lang = ext_rules(ext@) is Some;
        let ghost lcs = match ext_rules(ext@) {
            Some(rules) => rules.0,
            None => Seq::empty(),
        };
        let ghost blk = match ext_rules(ext@) {
            Some(rules) => rules.1,
            None => None,
        };
        let ghost target = scan_lines(linesv, 0, 0, has_lang, lcs, blk);
        proof {
            lemma_lines_of_sum(content@);
            assert(linesv.subrange(0, 0) =~= Seq::<Seq<char>>::empty());
        }
        let n = lines.len();
        let mut acc: Vec<TodoItem> = Vec::new();
        let mut depth: usize = 0;
        let mut i: usize = 0;
        proof {
            assert(cands_of(acc@) =~= Seq::<CandV>::empty());
        }
        while i < n
            invariant
                n == lines@.len(),
                i <= n,
                views_of(lines@) == linesv,
                sum_lens(linesv) <= clen,
                target == scan_of(content@, ext@),
                target =~= cands_of(acc@) + scan_lines(
                    linesv,
                    i as int,
                    depth as nat,
                    has_lang,
                    lcs,
                    blk,
                ),
                items_wf(acc@, path@),
                2 * depth <= sum_lens(linesv.subrange(0, i as int)),
            decreases n - i,
        {
            let line = lines[i].as_str();
            let llen = line.unicode_len();
            let ghost linev = linesv[i as int];
            proof {
                assert(lines@[i as int]@ == views_of(lines@)[i as int]);
                assert(line@ == linev);
                // the length of this line fits under the total
                lemma_sum_lens_split(linesv, i as int);
                lemma_sum_lens_split(linesv, i + 1);
                assert(linesv.subrange(i as int, linesv.len() as int)[0] == linev);
                assert(linesv.subrange(i as int, linesv.len() as int).drop_first()
                    =~= linesv.subrange(i + 1, linesv.len() as int));
                assert(sum_lens(linesv.subrange(i as int, linesv.len() as int)) == linev.len()
                    + sum_lens(linesv.subrange(i + 1, linesv.len() as int)));
                assert(sum_lens(linesv.subrange(0, i + 1)) == sum_lens(
                    linesv.subrange(0, i as int),
                ) + linev.len());
            }
            let mut in_comment: bool = true;
            let mut nd: usize = depth;
            match &lang_opt {
                Some(l) => {
                    let was_in = depth > 0;
                    let mut opened = false;
                    match (&l.block_comment_start, &l.block_comment_end) {
                        (Some(bs), Some(be)) => {
                            proof {
                                reveal_strlit("/*");
                                reveal_strlit("*/");
                                assert(lang_block(*l) == Some((bs@, be@)));
                                assert(bs@ == "/*"@ && be@ == "*/"@);
                            }
                            let sc = block_scan_exec(line, llen, depth, bs.as_str(), be.as_str());
                            nd = sc.0;
                            opened = sc.1;
                        },
                        _ => {
                            proof {
                                assert(lang_block(*l) is None);
                                assert(blk is None);
                            }
                        },
                    }
                    let a = skip_spaces_exec(line, llen, 0);
                    let trimmed_line = line.substring_char(a, llen);
                    proof {
                        assert(trimmed_line@ == trim_start_of(linev));
                    }
                    let lc = is_line_comment(trimmed_line, l);
                    in_comment = was_in || opened || lc;
                    if blk_is_none_helper(l) {
                        in_comment = lc;
                    }
                    proof {
                        assert((in_comment, nd as nat) == line_step(linev, depth as nat, lcs, blk));
                    }
                },
                None => {
                    proof {
                        assert(!has_lang);
                    }
                },
            }
            if in_comment {
                let mut v = self_scan_line(line, path, i + 1);
                let ghost prev = acc@;
                let ghost vv = v@;
                acc.append(&mut v);
                proof {
                    assert(acc@ == prev + vv);
                    assert(cands_of(acc@) =~= cands_of(prev) + cands_of(vv));
                    assert forall|j: int| 0 <= j < acc@.len() implies {
                        &&& (#[trigger] acc@[j]).file@ == path@
                        &&& acc@[j].git_author is None
                        &&& acc@[j].git_date is None
                        &&& !(acc@[j].tag is Custom)
                    } by {
                        if j < prev.len() {
                            assert(acc@[j] == prev[j]);
                        } else {
                            assert(acc@[j] == vv[j - prev.len()]);
                        }
                    }
                }
            }
            proof {
                let step = if has_lang {
                    line_step(linev, depth as nat, lcs, blk)
                } else {
                    (true, depth as nat)
                };
                assert(step.0 == in_comment && step.1 == nd as nat);
                assert(scan_lines(linesv, i as int, depth as nat, has_lang, lcs, blk) == (
                if in_comment {
                    line_items(linev, i + 1)
                } else {
                    Seq::empty()
                }) + scan_lines(linesv, i + 1, nd as nat, has_lang, lcs, blk));
                assert(target =~= cands_of(acc@) + scan_lines(
                    linesv,
                    i + 1,
                    nd as nat,
                    has_lang,
                    lcs,
                    blk,
                ));
                assert(2 * nd <= sum_lens(linesv.subrange(0, i + 1)));
            }
            depth = nd;
            i += 1;
        }
        proof {
            assert(scan_lines(linesv, n as int, depth as nat, has_lang, lcs, blk)
                =~= Seq::<CandV>::empty());
            assert(cands_of(acc@) =~= target);
        }
        acc
    }
}

/// Whether a language lacks block delimiters.
fn blk_is_none_helper(l: &LanguageRule) -> (r: bool)
    ensures
        r == (lang_block(*l) is None),
{
    match (&l.block_comment_start, &l.block_comment_end) {
        (Some(_), Some(_)) => false,
        _ => true,
    }
}

/// Scans one in-comment line (free-function form used by the scanner).
fn self_scan_line(line: &str, path: &str, lineno: usize) -> (items: Vec<TodoItem>)
    ensures
        cands_of(items@) == line_items(line@, lineno as int),
        items_wf(items@, path@),
{
    scan_line(line, path, lineno)
}

/// The block depth at the start of line `i`, under the given rules.
pub open spec fn depth_at(
    lines: Seq<Seq<char>>,
    i: int,
    lcs: Seq<Seq<char>>,
    blk: Option<(Seq<char>, Seq<char>)>,
) -> nat
    decreases i,
{
    if i <= 0 || i > lines.len() {
        0
    } else {
        line_step(lines[i - 1], depth_at(lines, i - 1, lcs, blk), lcs, blk).1
    }
}

/// A candidate found at or after line `i` is found by the whole scan.
proof fn lemma_scan_from_zero(
    lines: Seq<Seq<char>>,
    i: int,
    lcs: Seq<Seq<char>>,
    blk: Option<(Seq<char>, Seq<char>)>,
    c: CandV,
)
    requires
        0 <= i <= lines.len(),
        scan_lines(lines, i, depth_at(lines, i, lcs, blk), true, lcs, blk).contains(c),
    ensures
        scan_lines(lines, 0, 0, true, lcs, blk).contains(c),
    decreases i,
{
    if i > 0 {
        let d = depth_at(lines, i - 1, lcs, blk);
        let step = line_step(lines[i - 1], d, lcs, blk);
        assert(scan_lines(lines, i - 1, d, true, lcs, blk) == (if step.0 {
            line_items(lines[i - 1], i)
        } else {
            Seq::empty()
        }) + scan_lines(lines, i, step.1, true, lcs, blk));
        let tail = scan_lines(lines, i, step.1, true, lcs, blk);
        let head = if step.0 {
            line_items(lines[i - 1], i)
        } else {
            Seq::<CandV>::empty()
        };
        let k = choose|k: int| 0 <= k < tail.len() && tail[k] == c;
        assert((head + tail)[head.len() + k] == c);
        assert(scan_lines(lines, i - 1, d, true, lcs, blk).contains(c));
        lemma_scan_from_zero(lines, i - 1, lcs, blk, c);
    }
}

/// Every line-comment line yields all of its candidates: when the trimmed
/// text of a line begins with one of the language's line-comment prefixes,
/// each of that line's candidates appears in the whole scan.
pub proof fn lemma_comment_line_extracted(
    lines: Seq<Seq<char>>,
    i: int,
    lcs: Seq<Seq<char>>,
    blk: Option<(Seq<char>, Seq<char>)>,
    c: CandV,
)
    requires
        0 <= i < lines.len(),
        lc_prefix_match(trim_start_of(lines[i]), lcs),
        line_items(lines[i], i + 1).contains(c),
    ensures
        scan_lines(lines, 0, 0, true, lcs, blk).contains(c),
{
    let d = depth_at(lines, i, lcs, blk);
    let step = line_step(lines[i], d, lcs, blk);
    assert(step.0);
    assert(scan_lines(lines, i, d, true, lcs, blk) == line_items(lines[i], i + 1) + scan_lines(
        lines,
        i + 1,
        step.1,
        true,
        lcs,
        blk,
    ));
    let head = line_items(lines[i], i + 1);
    let k = choose|k: int| 0 <= k < head.len() && head[k] == c;
    assert((head + scan_lines(lines, i + 1, step.1, true, lcs, blk))[k] == c);
    assert(scan_lines(lines, i, d, true, lcs, blk).contains(c));
    lemma_scan_from_zero(lines, i, lcs, blk, c);
}

/// Every line inside an open block comment yields all of its candidates:
/// when the block depth is positive at the start of a line, each of that
/// line's candidates appears in the whole scan, however far apart the
/// delimiters lie.
pub proof fn lemma_block_line_extracted(
    lines: Seq<Seq<char>>,
    i: int,
    lcs: Seq<Seq<char>>,
    bs: Seq<char>,
    be: Seq<char>,
    c: CandV,
)
    requires
        0 <= i < lines.len(),
        depth_at(lines, i, lcs, Some((bs, be))) > 0,
        line_items(lines[i], i + 1).contains(c),
    ensures
        scan_lines(lines, 0, 0, true, lcs, Some((bs, be))).contains(c),
{
    let blk = Some((bs, be));
    let d = depth_at(lines, i, lcs, blk);
    let step = line_step(lines[i], d, lcs, blk);
    assert(step.0);
    assert(scan_lines(lines, i, d, true, lcs, blk) == line_items(lines[i], i + 1) + scan_lines(
        lines,
        i + 1,
        step.1,
        true,
        lcs,
        blk,
    ));
    let head = line_items(lines[i], i + 1);
    let k = choose|k: int| 0 <= k < head.len() && head[k] == c;
    assert((head + scan_lines(lines, i + 1, step.1, true, lcs, blk))[k] == c);
    assert(scan_lines(lines, i, d, true, lcs, blk).contains(c));
    lemma_scan_from_zero(lines, i, lcs, blk, c);
}

proof fn lemma_meta_items_line_no(line: Seq<char>, lineno: int, from: int, c: CandV)
    requires
        meta_items(line, lineno, from).contains(c),
    ensures
        c.line == lineno,
    decreases line.len() + 1 - from,
{
    match next_meta(line, from) {
        Some((p, t, cl)) => {
            if from <= cl && cl < line.len() {
                let head = seq![meta_item(line, lineno, p, t, cl)];
                let tail = meta_items(line, lineno, cl + 1);
                let k = choose|k: int|
                    0 <= k < (head + tail).len() && (head + tail)[k] == c;
                if k == 0 {
                } else {
                    assert(tail[k - 1] == c);
                    assert(tail.contains(c));
                    lemma_meta_items_line_no(line, lineno, cl + 1, c);
                }
            }
        },
        None => {},
    }
}

proof fn lemma_bare_items_line_no(line: Seq<char>, lineno: int, from: int, c: CandV)
    requires
        bare_items(line, lineno, from).contains(c),
    ensures
        c.line == lineno,
    decreases line.len() + 1 - from,
{
    match next_bare(line, from) {
        Some((p, t)) => {
            if from < p + t.len() && p + t.len() <= line.len() && t.len() > 0 {
                let head = seq![bare_item(line, lineno, p, t)];
                let tail = bare_items(line, lineno, p + t.len() as int);
                let k = choose|k: int|
                    0 <= k < (head + tail).len() && (head + tail)[k] == c;
                if k == 0 {
                } else {
                    assert(tail[k - 1] == c);
                    assert(tail.contains(c));
                    lemma_bare_items_line_no(line, lineno, p + t.len() as int, c);
                }
            }
        },
        None => {},
    }
}

/// Every candidate of a line carries that line's one-based number.
pub proof fn lemma_line_items_line_no(line: Seq<char>, lineno: int, c: CandV)
    requires
        line_items(line, lineno).contains(c),
    ensures
        c.line == lineno,
{
    if next_meta(line, 0) is Some {
        lemma_meta_items_line_no(line, lineno, 0, c);
    } else {
        lemma_bare_items_line_no(line, lineno, 0, c);
    }
}

/// A three-token metadata list of an author, an issue reference and a
/// priority alias is classified as exactly that author, issue and
/// priority, whatever order the classifier walks them in.
pub proof fn lemma_metadata_triple(t0: Seq<char>, t1: Seq<char>, t2: Seq<char>)
    requires
        trimmed(t0).len() > 0,
        trimmed(t0)[0] != '#',
        priority_of_token(trimmed(t0)) is None,
        trimmed(t1).len() > 0,
        trimmed(t1)[0] == '#',
        trimmed(t2).len() > 0,
        trimmed(t2)[0] != '#',
        priority_of_token(trimmed(t2)) is Some,
    ensures
        meta_fold(seq![t0, t1, t2], 0, None, None, None) == (
            Some(trimmed(t0)),
            Some(trimmed(t1)),
            priority_of_token(trimmed(t2)),
        ),
{
    let toks = seq![t0, t1, t2];
    assert(meta_fold(toks, 0, None, None, None) == meta_fold(
        toks,
        1,
        Some(trimmed(t0)),
        None,
        None,
    ));
    assert(meta_fold(toks, 1, Some(trimmed(t0)), None, None) == meta_fold(
        toks,
        2,
        Some(trimmed(t0)),
        Some(trimmed(t1)),
        None,
    ));
    assert(meta_fold(toks, 2, Some(trimmed(t0)), Some(trimmed(t1)), None) == meta_fold(
        toks,
        3,
        Some(trimmed(t0)),
        Some(trimmed(t1)),
        priority_of_token(trimmed(t2)),
    ));
}

} // verus!
