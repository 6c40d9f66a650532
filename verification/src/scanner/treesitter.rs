//! The precision verifier: parses a file with a tree-sitter grammar, takes
//! the byte ranges of its comment nodes, and discards lexical candidates
//! whose line does not begin inside one. Parsing sits behind trusted
//! wrappers; the filtering itself is verified. Whenever no grammar is
//! available or parsing fails, the candidates pass through unchanged.

use vstd::prelude::*;
use vstd::string::StringSliceAdditionalSpecFns;
use crate::error::TodoError;
use crate::model::TodoItem;
use crate::scanner::languages::LanguageDatabase;
use crate::scanner::regex::{RegexScanner, CandV, cand_of, cands_of, scan_of, ext_of_path,
    items_wf, ext_rules, name_of_rules, has_grammar_name_spec, rules_for_ext, path_extension};
use crate::strutil::{str_eq, lemma_filter_push};

verus! {

broadcast use vstd::string::group_string_axioms;

/// Counters for one verification pass, used for diagnostics only.
#[derive(Debug, Clone)]
pub struct PrecisionStats {
    pub total_candidates: usize,
    pub verified: usize,
    pub filtered_false_positives: usize,
}

impl PrecisionStats {
    /// Fresh counters, all zero.
    pub fn new() -> (r: PrecisionStats)
        ensures
            r.total_candidates == 0,
            r.verified == 0,
            r.filtered_false_positives == 0,
    {
        PrecisionStats { total_candidates: 0, verified: 0, filtered_false_positives: 0 }
    }
}

/// The position of the first newline byte at or after `from`.
pub open spec fn find_nl_from(bytes: Seq<u8>, from: int) -> Option<int>
    decreases bytes.len() - from,
{
    if from < 0 || from >= bytes.len() {
        None
    } else if bytes[from] == 10u8 {
        Some(from)
    } else {
        find_nl_from(bytes, from + 1)
    }
}

/// The byte offset at which a one-based line number starts: line one starts
/// at offset zero, and each later line starts just after the previous
/// line's newline. A line number beyond the text (or zero) has no offset.
pub open spec fn line_start_offset(bytes: Seq<u8>, line: int) -> Option<int>
    decreases bytes.len(), line,
{
    if line <= 0 {
        None
    } else if line == 1 {
        Some(0)
    } else {
        match find_nl_from(bytes, 0) {
            Some(i) => if 0 <= i < bytes.len() {
                match line_start_offset(bytes.subrange(i + 1, bytes.len() as int), line - 1) {
                    Some(o) => Some(i + 1 + o),
                    None => None,
                }
            } else {
                None
            },
            None => None,
        }
    }
}

/// Converts a one-based line number to the byte offset of that line's
/// start, by counting newline bytes; nothing for line zero or a line past
/// the end of the text.
pub fn line_number_to_byte_offset(source_code: &str, line_number: usize) -> (r: Option<usize>)
    ensures
        r == match line_start_offset(source_code.spec_bytes(), line_number as int) {
            Some(o) => Some(o as usize),
            None => None::<usize>,
        },
{
    let bytes = source_code.as_bytes();
    let n = bytes.len();
    let ghost bv = source_code.spec_bytes();
    if line_number == 0 {
        return None;
    }
    if line_number == 1 {
        return Some(0);
    }
    let mut remaining: usize = line_number;
    let mut pos: usize = 0;
    let mut i: usize = 0;
    proof {
        assert(bv.subrange(0, n as int) =~= bv);
    }
    while i < n
        invariant
            n == bv.len(),
            bv == source_code.spec_bytes(),
            bytes@ == bv,
            pos <= i <= n,
            2 <= remaining <= line_number,
            forall|j: int| pos <= j < i ==> bv[j] != 10u8,
            line_start_offset(bv, line_number as int) == match line_start_offset(
                bv.subrange(pos as int, n as int),
                remaining as int,
            ) {
                Some(o) => Some(pos + o),
                None => None::<int>,
            },
        decreases n - i,
    {
        let b = bytes[i];
        if b == 10u8 {
            let ghost sub = bv.subrange(pos as int, n as int);
            proof {
                assert(sub[i - pos] == 10u8);
                assert forall|j: int| 0 <= j < i - pos implies sub[j] != 10u8 by {
                    assert(sub[j] == bv[pos + j]);
                }
                lemma_find_nl_at(sub, 0, i - pos);
                assert(sub.subrange(i - pos + 1, sub.len() as int) =~= bv.subrange(
                    i + 1,
                    n as int,
                ));
            }
            if remaining == 2 {
                proof {
                    assert(line_start_offset(bv.subrange(i + 1, n as int), 1) == Some(0int));
                    assert(line_start_offset(sub, 2) == Some(i - pos + 1));
                }
                return Some(i + 1);
            }
            remaining = remaining - 1;
            pos = i + 1;
        }
        i += 1;
    }
    proof {
        let sub = bv.subrange(pos as int, n as int);
        assert forall|j: int| 0 <= j < sub.len() implies sub[j] != 10u8 by {
            assert(sub[j] == bv[pos + j]);
        }
        lemma_find_nl_none(sub, 0);
        assert(line_start_offset(sub, remaining as int) is None);
    }
    None
}

proof fn lemma_find_nl_at(bytes: Seq<u8>, from: int, i: int)
    requires
        0 <= from <= i < bytes.len(),
        bytes[i] == 10u8,
        forall|j: int| from <= j < i ==> bytes[j] != 10u8,
    ensures
        find_nl_from(bytes, from) == Some(i),
    decreases i - from,
{
    if from < i {
        lemma_find_nl_at(bytes, from + 1, i);
    }
}

proof fn lemma_find_nl_none(bytes: Seq<u8>, from: int)
    requires
        0 <= from <= bytes.len(),
        forall|j: int| from <= j < bytes.len() ==> bytes[j] != 10u8,
    ensures
        find_nl_from(bytes, from) is None,
    decreases bytes.len() - from,
{
    if from < bytes.len() {
        lemma_find_nl_none(bytes, from + 1);
    }
}

/// The byte offset lies inside one of the half-open ranges.
pub open spec fn in_some_range(ranges: Seq<(usize, usize)>, off: int) -> bool {
    exists|k: int| 0 <= k < ranges.len() && (#[trigger] ranges[k]).0 <= off < ranges[k].1
}

/// A candidate's line starts inside one of the comment ranges.
pub open spec fn cand_line_in_comments(
    line: int,
    ranges: Seq<(usize, usize)>,
    bytes: Seq<u8>,
) -> bool {
    match line_start_offset(bytes, line) {
        Some(o) => in_some_range(ranges, o),
        None => false,
    }
}

proof fn lemma_line_start_offset_bounds(bytes: Seq<u8>, line: int)
    ensures
        line_start_offset(bytes, line) matches Some(o) ==> 0 <= o <= bytes.len(),
    decreases bytes.len(), line,
{
    if line > 1 {
        match find_nl_from(bytes, 0) {
            Some(i) => {
                if 0 <= i < bytes.len() {
                    lemma_line_start_offset_bounds(bytes.subrange(i + 1, bytes.len() as int),
                        line - 1);
                }
            },
            None => {},
        }
    }
}

/// Whether a line number falls inside any of the comment ranges of the
/// source text.
pub fn is_line_in_comments(
    line_number: usize,
    comment_ranges: &Vec<(usize, usize)>,
    source_code: &str,
) -> (r: bool)
    ensures
        r == cand_line_in_comments(
            line_number as int,
            comment_ranges@,
            source_code.spec_bytes(),
        ),
{
    let total = source_code.as_bytes().len();
    proof {
        assert(total == source_code.spec_bytes().len());
        lemma_line_start_offset_bounds(source_code.spec_bytes(), line_number as int);
    }
    let off = match line_number_to_byte_offset(source_code, line_number) {
        Some(o) => o,
        None => {
            return false;
        },
    };
    let n = comment_ranges.len();
    let mut k: usize = 0;
    while k < n
        invariant
            n == comment_ranges@.len(),
            k <= n,
            forall|q: int|
                0 <= q < k ==> !((#[trigger] comment_ranges@[q]).0 <= off < comment_ranges@[q].1),
        decreases n - k,
    {
        let (start, end) = comment_ranges[k];
        if start <= off && off < end {
            proof {
                let kk = k as int;
                assert((#[trigger] comment_ranges@[kk]).0 <= off < comment_ranges@[kk].1);
                assert(in_some_range(comment_ranges@, off as int));
            }
            return true;
        }
        k += 1;
    }
    proof {
        assert(!in_some_range(comment_ranges@, off as int));
    }
    false
}

/// The predicate `verify_candidates` keeps.
pub open spec fn cand_kept(it: TodoItem, ranges: Seq<(usize, usize)>, bytes: Seq<u8>) -> bool {
    cand_line_in_comments(it.line as int, ranges, bytes)
}

/// Filters candidates to those whose line starts inside a comment range,
/// preserving order, and counts the outcome: every candidate is either
/// verified or filtered, and the kept list is exactly the filter of the
/// input.
pub fn verify_candidates(
    candidates: Vec<TodoItem>,
    comment_ranges: &Vec<(usize, usize)>,
    source_code: &str,
) -> (r: (Vec<TodoItem>, PrecisionStats))
    ensures
        r.0@ == candidates@.filter(
            |it: TodoItem| cand_kept(it, comment_ranges@, source_code.spec_bytes()),
        ),
        r.1.total_candidates == candidates@.len(),
        r.1.verified == r.0@.len(),
        r.1.filtered_false_positives == candidates@.len() - r.0@.len(),
{
    let ghost pred = |it: TodoItem|
        cand_kept(it, comment_ranges@, source_code.spec_bytes());
    let n = candidates.len();
    let mut kept: Vec<TodoItem> = Vec::new();
    let mut i: usize = 0;
    proof {
        reveal(Seq::filter);
        assert(candidates@.subrange(0, 0) =~= Seq::<TodoItem>::empty());
        assert(candidates@.subrange(0, 0).filter(pred) =~= Seq::<TodoItem>::empty());
    }
    while i < n
        invariant
            n == candidates@.len(),
            i <= n,
            kept@.len() <= i,
            kept@ == candidates@.subrange(0, i as int).filter(pred),
        decreases n - i,
    {
        let it = &candidates[i];
        let ok = is_line_in_comments(it.line, comment_ranges, source_code);
        let ghost pre = candidates@.subrange(0, i as int);
        proof {
            assert(candidates@.subrange(0, i + 1) =~= pre.push(candidates@[i as int]));
            lemma_filter_push(pre, pred, candidates@[i as int]);
        }
        if ok {
            kept.push(candidates[i].clone_item());
        }
        i += 1;
    }
    proof {
        assert(candidates@.subrange(0, n as int) =~= candidates@);
    }
    let total = n;
    let verified = kept.len();
    let stats = PrecisionStats {
        total_candidates: total,
        verified,
        filtered_false_positives: total - verified,
    };
    (kept, stats)
}

/// An executable parse outcome equals a named specification-level one:
/// same presence, same ranges.
pub open spec fn ranges_match(
    r: Option<Vec<(usize, usize)>>,
    g: Option<Seq<(usize, usize)>>,
) -> bool {
    match (r, g) {
        (Some(v), Some(sq)) => v@ == sq,
        (None, None) => true,
        _ => false,
    }
}

/// Every range is ordered and ends within the text.
pub open spec fn wf_ranges(v: Seq<(usize, usize)>, len: int) -> bool {
    forall|k: int| 0 <= k < v.len() ==> (#[trigger] v[k]).0 <= v[k].1 <= len
}
/// The comment-node byte ranges the rust grammar yields for a text,
/// or nothing when parsing or the query fails.
pub uninterp spec fn rust_comment_ranges(bytes: Seq<u8>) -> Option<Seq<(usize, usize)>>;
/// The comment-node byte ranges the JavaScript grammar yields for a text,
/// or nothing when parsing or the query fails.
pub uninterp spec fn javascript_comment_ranges(bytes: Seq<u8>) -> Option<Seq<(usize, usize)>>;
/// The comment-node byte ranges the python grammar yields for a text,
/// or nothing when parsing or the query fails.
pub uninterp spec fn python_comment_ranges(bytes: Seq<u8>) -> Option<Seq<(usize, usize)>>;
/// The comment-node byte ranges the go grammar yields for a text,
/// or nothing when parsing or the query fails.
pub uninterp spec fn go_comment_ranges(bytes: Seq<u8>) -> Option<Seq<(usize, usize)>>;
/// The comment-node byte ranges the java grammar yields for a text,
/// or nothing when parsing or the query fails.
pub uninterp spec fn java_comment_ranges(bytes: Seq<u8>) -> Option<Seq<(usize, usize)>>;
/// The comment-node byte ranges the c grammar yields for a text,
/// or nothing when parsing or the query fails.
pub uninterp spec fn c_comment_ranges(bytes: Seq<u8>) -> Option<Seq<(usize, usize)>>;
/// The comment-node byte ranges the C++ grammar yields for a text,
/// or nothing when parsing or the query fails.
pub uninterp spec fn cpp_comment_ranges(bytes: Seq<u8>) -> Option<Seq<(usize, usize)>>;
/// The comment-node byte ranges the ruby grammar yields for a text,
/// or nothing when parsing or the query fails.
pub uninterp spec fn ruby_comment_ranges(bytes: Seq<u8>) -> Option<Seq<(usize, usize)>>;
/// Relies on tree_sitter's Parser, Query and QueryCursor with the
/// tree_sitter_rust grammar. Parsing and querying are functions of the
/// byte content alone, so the outcome is named `rust_comment_ranges`.
/// This grammar names its comment nodes `line_comment` and
/// `block_comment`, which the query selects.
/// Node byte ranges are offsets into the parsed text, each range's start
/// not after its end; every failure path yields nothing.
#[verifier::external_body]
fn parse_rust_comments(source: &[u8]) -> (r: Option<Vec<(usize, usize)>>)
    ensures
        ranges_match(r, rust_comment_ranges(source@)),
        r matches Some(v) ==> wf_ranges(v@, source@.len() as int),
{
    let language: tree_sitter::Language = tree_sitter_rust::LANGUAGE.into();
    let mut parser = tree_sitter::Parser::new();
    parser.set_language(&language).ok()?;
    let tree = parser.parse(source, None)?;
    let query = tree_sitter::Query::new(&language, "[(line_comment) (block_comment)] @comment").ok()?;
    let mut cursor = tree_sitter::QueryCursor::new();
    let mut matches = cursor.matches(&query, tree.root_node(), source);
    let mut ranges: Vec<(usize, usize)> = Vec::new();
    while let Some(m) = streaming_iterator::StreamingIterator::next(&mut matches) {
        for capture in m.captures() {
            ranges.push((capture.node.start_byte(), capture.node.end_byte()));
        }
    }
    Some(ranges)
}
/// Relies on tree_sitter's Parser, Query and QueryCursor with the
/// tree_sitter_javascript grammar (also used for TypeScript sources); the
/// outcome is a function of the byte content alone, named
/// `javascript_comment_ranges`.
/// Node byte ranges are offsets into the parsed text, each range's start
/// not after its end; every failure path yields nothing.
#[verifier::external_body]
fn parse_javascript_comments(source: &[u8]) -> (r: Option<Vec<(usize, usize)>>)
    ensures
        ranges_match(r, javascript_comment_ranges(source@)),
        r matches Some(v) ==> wf_ranges(v@, source@.len() as int),
{
    let language: tree_sitter::Language = tree_sitter_javascript::LANGUAGE.into();
    let mut parser = tree_sitter::Parser::new();
    parser.set_language(&language).ok()?;
    let tree = parser.parse(source, None)?;
    let query = tree_sitter::Query::new(&language, "(comment) @comment").ok()?;
    let mut cursor = tree_sitter::QueryCursor::new();
    let mut matches = cursor.matches(&query, tree.root_node(), source);
    let mut ranges: Vec<(usize, usize)> = Vec::new();
    while let Some(m) = streaming_iterator::StreamingIterator::next(&mut matches) {
        for capture in m.captures() {
            ranges.push((capture.node.start_byte(), capture.node.end_byte()));
        }
    }
    Some(ranges)
}
/// Relies on tree_sitter's Parser, Query and QueryCursor with the
/// tree_sitter_python grammar; the outcome is a function of the byte
/// content alone, named `python_comment_ranges`.
/// Node byte ranges are offsets into the parsed text, each range's start
/// not after its end; every failure path yields nothing.
#[verifier::external_body]
fn parse_python_comments(source: &[u8]) -> (r: Option<Vec<(usize, usize)>>)
    ensures
        ranges_match(r, python_comment_ranges(source@)),
        r matches Some(v) ==> wf_ranges(v@, source@.len() as int),
{
    let language: tree_sitter::Language = tree_sitter_python::LANGUAGE.into();
    let mut parser = tree_sitter::Parser::new();
    parser.set_language(&language).ok()?;
    let tree = parser.parse(source, None)?;
    let query = tree_sitter::Query::new(&language, "(comment) @comment").ok()?;
    let mut cursor = tree_sitter::QueryCursor::new();
    let mut matches = cursor.matches(&query, tree.root_node(), source);
    let mut ranges: Vec<(usize, usize)> = Vec::new();
    while let Some(m) = streaming_iterator::StreamingIterator::next(&mut matches) {
        for capture in m.captures() {
            ranges.push((capture.node.start_byte(), capture.node.end_byte()));
        }
    }
    Some(ranges)
}
/// Relies on tree_sitter's Parser, Query and QueryCursor with the
/// tree_sitter_go grammar; the outcome is a function of the byte content
/// alone, named `go_comment_ranges`.
/// Node byte ranges are offsets into the parsed text, each range's start
/// not after its end; every failure path yields nothing.
#[verifier::external_body]
fn parse_go_comments(source: &[u8]) -> (r: Option<Vec<(usize, usize)>>)
    ensures
        ranges_match(r, go_comment_ranges(source@)),
        r matches Some(v) ==> wf_ranges(v@, source@.len() as int),
{
    let language: tree_sitter::Language = tree_sitter_go::LANGUAGE.into();
    let mut parser = tree_sitter::Parser::new();
    parser.set_language(&language).ok()?;
    let tree = parser.parse(source, None)?;
    let query = tree_sitter::Query::new(&language, "(comment) @comment").ok()?;
    let mut cursor = tree_sitter::QueryCursor::new();
    let mut matches = cursor.matches(&query, tree.root_node(), source);
    let mut ranges: Vec<(usize, usize)> = Vec::new();
    while let Some(m) = streaming_iterator::StreamingIterator::next(&mut matches) {
        for capture in m.captures() {
            ranges.push((capture.node.start_byte(), capture.node.end_byte()));
        }
    }
    Some(ranges)
}
/// Relies on tree_sitter's Parser, Query and QueryCursor with the
/// tree_sitter_java grammar; the outcome is a function of the byte
/// content alone, named `java_comment_ranges`. Like the Rust grammar,
/// this one names its comment nodes `line_comment` and `block_comment`.
/// Node byte ranges are offsets into the parsed text, each range's start
/// not after its end; every failure path yields nothing.
#[verifier::external_body]
fn parse_java_comments(source: &[u8]) -> (r: Option<Vec<(usize, usize)>>)
    ensures
        ranges_match(r, java_comment_ranges(source@)),
        r matches Some(v) ==> wf_ranges(v@, source@.len() as int),
{
    let language: tree_sitter::Language = tree_sitter_java::LANGUAGE.into();
    let mut parser = tree_sitter::Parser::new();
    parser.set_language(&language).ok()?;
    let tree = parser.parse(source, None)?;
    let query = tree_sitter::Query::new(&language, "[(line_comment) (block_comment)] @comment").ok()?;
    let mut cursor = tree_sitter::QueryCursor::new();
    let mut matches = cursor.matches(&query, tree.root_node(), source);
    let mut ranges: Vec<(usize, usize)> = Vec::new();
    while let Some(m) = streaming_iterator::StreamingIterator::next(&mut matches) {
        for capture in m.captures() {
            ranges.push((capture.node.start_byte(), capture.node.end_byte()));
        }
    }
    Some(ranges)
}
/// Relies on tree_sitter's Parser, Query and QueryCursor with the
/// tree_sitter_c grammar; the outcome is a function of the byte content
/// alone, named `c_comment_ranges`.
/// Node byte ranges are offsets into the parsed text, each range's start
/// not after its end; every failure path yields nothing.
#[verifier::external_body]
fn parse_c_comments(source: &[u8]) -> (r: Option<Vec<(usize, usize)>>)
    ensures
        ranges_match(r, c_comment_ranges(source@)),
        r matches Some(v) ==> wf_ranges(v@, source@.len() as int),
{
    let language: tree_sitter::Language = tree_sitter_c::LANGUAGE.into();
    let mut parser = tree_sitter::Parser::new();
    parser.set_language(&language).ok()?;
    let tree = parser.parse(source, None)?;
    let query = tree_sitter::Query::new(&language, "(comment) @comment").ok()?;
    let mut cursor = tree_sitter::QueryCursor::new();
    let mut matches = cursor.matches(&query, tree.root_node(), source);
    let mut ranges: Vec<(usize, usize)> = Vec::new();
    while let Some(m) = streaming_iterator::StreamingIterator::next(&mut matches) {
        for capture in m.captures() {
            ranges.push((capture.node.start_byte(), capture.node.end_byte()));
        }
    }
    Some(ranges)
}
/// Relies on tree_sitter's Parser, Query and QueryCursor with the
/// tree_sitter_cpp grammar; the outcome is a function of the byte
/// content alone, named `cpp_comment_ranges`.
/// Node byte ranges are offsets into the parsed text, each range's start
/// not after its end; every failure path yields nothing.
#[verifier::external_body]
fn parse_cpp_comments(source: &[u8]) -> (r: Option<Vec<(usize, usize)>>)
    ensures
        ranges_match(r, cpp_comment_ranges(source@)),
        r matches Some(v) ==> wf_ranges(v@, source@.len() as int),
{
    let language: tree_sitter::Language = tree_sitter_cpp::LANGUAGE.into();
    let mut parser = tree_sitter::Parser::new();
    parser.set_language(&language).ok()?;
    let tree = parser.parse(source, None)?;
    let query = tree_sitter::Query::new(&language, "(comment) @comment").ok()?;
    let mut cursor = tree_sitter::QueryCursor::new();
    let mut matches = cursor.matches(&query, tree.root_node(), source);
    let mut ranges: Vec<(usize, usize)> = Vec::new();
    while let Some(m) = streaming_iterator::StreamingIterator::next(&mut matches) {
        for capture in m.captures() {
            ranges.push((capture.node.start_byte(), capture.node.end_byte()));
        }
    }
    Some(ranges)
}
/// Relies on tree_sitter's Parser, Query and QueryCursor with the
/// tree_sitter_ruby grammar; the outcome is a function of the byte
/// content alone, named `ruby_comment_ranges`.
/// Node byte ranges are offsets into the parsed text, each range's start
/// not after its end; every failure path yields nothing.
#[verifier::external_body]
fn parse_ruby_comments(source: &[u8]) -> (r: Option<Vec<(usize, usize)>>)
    ensures
        ranges_match(r, ruby_comment_ranges(source@)),
        r matches Some(v) ==> wf_ranges(v@, source@.len() as int),
{
    let language: tree_sitter::Language = tree_sitter_ruby::LANGUAGE.into();
    let mut parser = tree_sitter::Parser::new();
    parser.set_language(&language).ok()?;
    let tree = parser.parse(source, None)?;
    let query = tree_sitter::Query::new(&language, "(comment) @comment").ok()?;
    let mut cursor = tree_sitter::QueryCursor::new();
    let mut matches = cursor.matches(&query, tree.root_node(), source);
    let mut ranges: Vec<(usize, usize)> = Vec::new();
    while let Some(m) = streaming_iterator::StreamingIterator::next(&mut matches) {
        for capture in m.captures() {
            ranges.push((capture.node.start_byte(), capture.node.end_byte()));
        }
    }
    Some(ranges)
}
/// The comment ranges a registry language name yields for a text; the
/// TypeScript name shares the JavaScript grammar, and a name without a
/// grammar yields nothing.
pub open spec fn grammar_comment_ranges(name: Seq<char>, bytes: Seq<u8>) -> Option<
    Seq<(usize, usize)>,
> {
    if name == "Rust"@ {
        rust_comment_ranges(bytes)
    } else if name == "JavaScript"@ || name == "TypeScript"@ {
        javascript_comment_ranges(bytes)
    } else if name == "Python"@ {
        python_comment_ranges(bytes)
    } else if name == "Go"@ {
        go_comment_ranges(bytes)
    } else if name == "Java"@ {
        java_comment_ranges(bytes)
    } else if name == "C"@ {
        c_comment_ranges(bytes)
    } else if name == "C++"@ {
        cpp_comment_ranges(bytes)
    } else if name == "Ruby"@ {
        ruby_comment_ranges(bytes)
    } else {
        None
    }
}

/// The registry names with grammars are pairwise distinct, so the
/// name-keyed dispatch is unambiguous.
proof fn lemma_grammar_name_diseqs()
    ensures
        "Rust"@.len() == 4,
        "JavaScript"@.len() == 10,
        "TypeScript"@.len() == 10,
        "Python"@.len() == 6,
        "Go"@.len() == 2,
        "Java"@.len() == 4,
        "C"@.len() == 1,
        "C++"@.len() == 3,
        "Ruby"@.len() == 4,
        "Java"@ != "Rust"@,
        "Ruby"@ != "Rust"@,
        "Ruby"@ != "Java"@,
        "JavaScript"@ != "TypeScript"@,
{
    reveal_strlit("Rust");
    reveal_strlit("JavaScript");
    reveal_strlit("TypeScript");
    reveal_strlit("Python");
    reveal_strlit("Go");
    reveal_strlit("Java");
    reveal_strlit("C");
    reveal_strlit("C++");
    reveal_strlit("Ruby");
    assert("Java"@[0] == 'J' && "Rust"@[0] == 'R');
    assert("Java"@ != "Rust"@) by {
        if "Java"@ == "Rust"@ {
            assert("Java"@[0] == "Rust"@[0]);
        }
    }
    assert("Ruby"@[2] == 'b' && "Rust"@[2] == 's');
    assert("Ruby"@ != "Rust"@) by {
        if "Ruby"@ == "Rust"@ {
            assert("Ruby"@[2] == "Rust"@[2]);
        }
    }
    assert("Ruby"@[0] == 'R' && "Java"@[0] == 'J');
    assert("Ruby"@ != "Java"@) by {
        if "Ruby"@ == "Java"@ {
            assert("Ruby"@[0] == "Java"@[0]);
        }
    }
    assert("JavaScript"@[0] == 'J' && "TypeScript"@[0] == 'T');
    assert("JavaScript"@ != "TypeScript"@) by {
        if "JavaScript"@ == "TypeScript"@ {
            assert("JavaScript"@[0] == "TypeScript"@[0]);
        }
    }
}

/// Dispatches to the grammar a registry language name denotes.
fn parse_comments_for(name: &str, source: &[u8]) -> (r: Option<Vec<(usize, usize)>>)
    requires
        has_grammar_name_spec(name@),
    ensures
        ranges_match(r, grammar_comment_ranges(name@, source@)),
        r matches Some(v) ==> wf_ranges(v@, source@.len() as int),
{
    proof {
        lemma_grammar_name_diseqs();
    }
    if str_eq(name, "Rust") {
        parse_rust_comments(source)
    } else if str_eq(name, "JavaScript") || str_eq(name, "TypeScript") {
        parse_javascript_comments(source)
    } else if str_eq(name, "Python") {
        parse_python_comments(source)
    } else if str_eq(name, "Go") {
        parse_go_comments(source)
    } else if str_eq(name, "Java") {
        parse_java_comments(source)
    } else if str_eq(name, "C") {
        parse_c_comments(source)
    } else if str_eq(name, "C++") {
        parse_cpp_comments(source)
    } else {
        proof {
            assert(name@ == "Ruby"@);
        }
        parse_ruby_comments(source)
    }
}

/// The AST-backed scanner: lexical candidates from the inner scanner,
/// narrowed by comment-node ranges when a grammar is available.
pub struct TreeSitterScanner {
    inner: RegexScanner,
}

/// Candidates whose line starts inside one of the ranges.
pub open spec fn filter_cands(
    ranges: Seq<(usize, usize)>,
    cands: Seq<CandV>,
    bytes: Seq<u8>,
) -> Seq<CandV> {
    cands.filter(|c: CandV| cand_line_in_comments(c.line, ranges, bytes))
}

/// Filtering items and filtering their views agree when the predicate
/// reads only the line number.
proof fn lemma_filter_views(items: Seq<TodoItem>, ranges: Seq<(usize, usize)>, bytes: Seq<u8>)
    ensures
        cands_of(items.filter(|it: TodoItem| cand_kept(it, ranges, bytes))) == filter_cands(
            ranges,
            cands_of(items),
            bytes,
        ),
    decreases items.len(),
{
    reveal(Seq::filter);
    if items.len() == 0 {
        assert(cands_of(items) =~= Seq::<CandV>::empty());
        assert(items.filter(|it: TodoItem| cand_kept(it, ranges, bytes)) =~= Seq::<
            TodoItem,
        >::empty());
        assert(cands_of(items.filter(|it: TodoItem| cand_kept(it, ranges, bytes)))
            =~= Seq::<CandV>::empty());
        assert(filter_cands(ranges, cands_of(items), bytes) =~= Seq::<CandV>::empty());
    } else {
        let pre = items.drop_last();
        let e = items.last();
        lemma_filter_views(pre, ranges, bytes);
        assert(items =~= pre.push(e));
        lemma_filter_push(pre, |it: TodoItem| cand_kept(it, ranges, bytes), e);
        assert(cands_of(pre.push(e)) =~= cands_of(pre).push(cand_of(e)));
        lemma_filter_push(cands_of(pre), |c: CandV| cand_line_in_comments(c.line, ranges, bytes),
            cand_of(e));
        assert(cand_of(e).line == e.line as int);
        if cand_kept(e, ranges, bytes) {
            assert(items.filter(|it: TodoItem| cand_kept(it, ranges, bytes)) == pre.filter(
                |it: TodoItem| cand_kept(it, ranges, bytes),
            ).push(e));
            assert(cands_of(pre.filter(|it: TodoItem| cand_kept(it, ranges, bytes)).push(e))
                =~= cands_of(pre.filter(|it: TodoItem| cand_kept(it, ranges, bytes))).push(
                cand_of(e),
            ));
            assert(cands_of(items.filter(|it: TodoItem| cand_kept(it, ranges, bytes)))
                =~= filter_cands(ranges, cands_of(items), bytes));
        } else {
            assert(cands_of(items.filter(|it: TodoItem| cand_kept(it, ranges, bytes)))
                =~= filter_cands(ranges, cands_of(items), bytes));
        }
    }
}

/// A grammar exists for the file's language: the extension is a known one
/// and not the single one whose language has no grammar.
pub open spec fn grammar_available(ext: Seq<char>) -> bool {
    ext_rules(ext) is Some && ext != "cs"@
}

/// What the precision pass returns for a file: the lexical candidates,
/// narrowed by the grammar's named comment ranges when the file's language
/// has a grammar and parsing succeeds, and exactly the lexical candidates
/// otherwise.
pub open spec fn precision_scan_of(content: Seq<char>, ext: Seq<char>) -> Seq<CandV> {
    let lex = scan_of(content, ext);
    let bytes = vstd::utf8::encode_utf8(content);
    if !grammar_available(ext) {
        lex
    } else {
        match grammar_comment_ranges(name_of_rules(ext), bytes) {
            Some(rs) => filter_cands(rs, lex, bytes),
            None => lex,
        }
    }
}

impl TreeSitterScanner {
    /// The inner lexical scanner is well formed.
    pub closed spec fn wf(&self) -> bool {
        self.inner.wf()
    }

    /// Builds the two-stage scanner. Construction always succeeds.
    pub fn new() -> (r: Result<TreeSitterScanner, TodoError>)
        ensures
            r is Ok,
            r matches Ok(sc) ==> sc.wf(),
    {
        match RegexScanner::new() {
            Ok(inner) => Ok(TreeSitterScanner { inner }),
            Err(e) => Err(e),
        }
    }

    /// Scans one file's text and verifies the candidates against the
    /// syntax tree: when the file's language has a grammar and it yields
    /// comment ranges, exactly the lexical candidates whose line starts
    /// inside one of them, in order; otherwise exactly the lexical
    /// candidate list.
    pub fn scan_content(&self, path: &str, content: &str) -> (items: Vec<TodoItem>)
        requires
            self.wf(),
        ensures
            cands_of(items@) == precision_scan_of(content@, ext_of_path(path@)),
            !grammar_available(ext_of_path(path@)) ==> cands_of(items@) == scan_of(
                content@,
                ext_of_path(path@),
            ),
            items_wf(items@, path@),
    {
        let ghost extv = ext_of_path(path@);
        let candidates = self.inner.scan_content(path, content);
        if candidates.len() == 0 {
            proof {
                reveal(Seq::filter);
                assert(cands_of(candidates@) =~= Seq::<CandV>::empty());
                match grammar_comment_ranges(
                    name_of_rules(extv),
                    vstd::utf8::encode_utf8(content@),
                ) {
                    Some(rs) => {
                        assert(filter_cands(
                            rs,
                            scan_of(content@, extv),
                            vstd::utf8::encode_utf8(content@),
                        ) =~= Seq::<CandV>::empty());
                    },
                    None => {},
                }
                assert(cands_of(candidates@) == precision_scan_of(content@, extv));
            }
            return candidates;
        }
        let ext = path_extension(path);
        let lang_db = LanguageDatabase::new();
        let language_info = rules_for_ext(&lang_db, ext.as_str());
        let language_name = match language_info {
            Some(l) => l.name,
            None => {
                proof {
                    assert(!grammar_available(extv));
                }
                return candidates;
            },
        };
        if str_eq(ext.as_str(), "cs") {
            proof {
                assert(!grammar_available(extv));
            }
            return candidates;
        }
        proof {
            assert(grammar_available(extv));
            assert(has_grammar_name_spec(language_name@));
            assert(language_name@ == name_of_rules(extv));
        }
        let ranges = match parse_comments_for(language_name.as_str(), content.as_bytes()) {
            Some(rs) => rs,
            None => {
                proof {
                    assert(content.spec_bytes() == vstd::utf8::encode_utf8(content@));
                    assert(grammar_comment_ranges(name_of_rules(extv), content.spec_bytes())
                        is None);
                    assert(cands_of(candidates@) == precision_scan_of(content@, extv));
                }
                return candidates;
            },
        };
        proof {
            assert(content.spec_bytes() == vstd::utf8::encode_utf8(content@));
            assert(grammar_comment_ranges(name_of_rules(extv), content.spec_bytes()) == Some(
                ranges@,
            ));
        }
        let ghost candsv = candidates@;
        let ghost lex = cands_of(candsv);
        let (kept, _stats) = verify_candidates(candidates, &ranges, content);
        proof {
            lemma_filter_views(candsv, ranges@, content.spec_bytes());
            assert(cands_of(kept@) == filter_cands(ranges@, lex, vstd::utf8::encode_utf8(
                content@,
            )));
            assert(cands_of(kept@) == precision_scan_of(content@, extv));
            lemma_items_wf_filter(
                candsv,
                |it: TodoItem| cand_kept(it, ranges@, content.spec_bytes()),
                path@,
            );
        }
        kept
    }
}

/// Filtering a well-formed item list keeps it well formed.
proof fn lemma_items_wf_filter(items: Seq<TodoItem>, p: spec_fn(TodoItem) -> bool, path: Seq<char>)
    requires
        items_wf(items, path),
    ensures
        items_wf(items.filter(p), path),
    decreases items.len(),
{
    reveal(Seq::filter);
    if items.len() == 0 {
        assert(items.filter(p) =~= Seq::<TodoItem>::empty());
    } else {
        let pre = items.drop_last();
        let e = items.last();
        assert(items_wf(pre, path)) by {
            assert(forall|j: int| 0 <= j < pre.len() ==> pre[j] == items[j]);
        }
        lemma_items_wf_filter(pre, p, path);
        assert(items =~= pre.push(e));
        lemma_filter_push(pre, p, e);
        let f = items.filter(p);
        let g = pre.filter(p);
        assert(items_wf(g, path));
        assert forall|j: int| 0 <= j < f.len() implies {
            &&& (#[trigger] f[j]).file@ == path
            &&& f[j].git_author is None
            &&& f[j].git_date is None
            &&& !(f[j].tag is Custom)
        } by {
            if p(e) {
                assert(f == g.push(e));
                if j < g.len() {
                    assert(f[j] == g[j]);
                } else {
                    assert(f[j] == e);
                    assert(e == items[items.len() - 1]);
                }
            } else {
                assert(f == g);
            }
        }
    }
}

} // verus!
