//! The language registry: a fixed catalogue mapping file extensions to
//! comment syntax rules.

use vstd::prelude::*;
use crate::strutil::{views_of, str_eq};

verus! {

/// Comment syntax for one language: its name, the file extensions it claims,
/// its line-comment prefixes, and an optional block-comment delimiter pair.
#[derive(Debug)]
pub struct LanguageRule {
    pub name: String,
    pub extensions: Vec<String>,
    pub line_comments: Vec<String>,
    pub block_comment_start: Option<String>,
    pub block_comment_end: Option<String>,
}

/// The view of an optional string.
pub open spec fn opt_view(o: Option<String>) -> Option<Seq<char>> {
    match o {
        Some(s) => Some(s@),
        None => None,
    }
}

/// Two language descriptors with the same content.
pub open spec fn lang_eqv(a: LanguageRule, b: LanguageRule) -> bool {
    &&& a.name@ == b.name@
    &&& views_of(a.extensions@) == views_of(b.extensions@)
    &&& views_of(a.line_comments@) == views_of(b.line_comments@)
    &&& opt_view(a.block_comment_start) == opt_view(b.block_comment_start)
    &&& opt_view(a.block_comment_end) == opt_view(b.block_comment_end)
}

/// The views of a language's block delimiters, if it has them.
pub open spec fn lang_block(l: LanguageRule) -> Option<(Seq<char>, Seq<char>)> {
    match (l.block_comment_start, l.block_comment_end) {
        (Some(s), Some(e)) => Some((s@, e@)),
        _ => None,
    }
}

/// A language's fields equal the given descriptors; `blk` tells whether it
/// has the C-style block delimiters.
pub open spec fn lang_is(
    l: LanguageRule,
    name: Seq<char>,
    exts: Seq<Seq<char>>,
    lcs: Seq<Seq<char>>,
    blk: bool,
) -> bool {
    &&& l.name@ == name
    &&& views_of(l.extensions@) == exts
    &&& views_of(l.line_comments@) == lcs
    &&& if blk {
        lang_block(l) == Some(("/*"@, "*/"@))
    } else {
        l.block_comment_start is None && l.block_comment_end is None
    }
}

pub open spec fn is_rust_lang(l: LanguageRule) -> bool {
    lang_is(l, "Rust"@, seq!["rs"@], seq!["//"@], true)
}

pub open spec fn is_go_lang(l: LanguageRule) -> bool {
    lang_is(l, "Go"@, seq!["go"@], seq!["//"@], true)
}

pub open spec fn is_python_lang(l: LanguageRule) -> bool {
    lang_is(l, "Python"@, seq!["py"@, "pyi"@], seq!["#"@], false)
}

pub open spec fn is_javascript_lang(l: LanguageRule) -> bool {
    lang_is(l, "JavaScript"@, seq!["js"@, "jsx"@, "mjs"@, "cjs"@], seq!["//"@], true)
}

pub open spec fn is_typescript_lang(l: LanguageRule) -> bool {
    lang_is(l, "TypeScript"@, seq!["ts"@, "tsx"@], seq!["//"@], true)
}

pub open spec fn is_java_lang(l: LanguageRule) -> bool {
    lang_is(l, "Java"@, seq!["java"@], seq!["//"@], true)
}

pub open spec fn is_c_lang(l: LanguageRule) -> bool {
    lang_is(l, "C"@, seq!["c"@, "h"@], seq!["//"@], true)
}

pub open spec fn is_cpp_lang(l: LanguageRule) -> bool {
    lang_is(l, "C++"@, seq!["cpp"@, "cxx"@, "cc"@, "hpp"@, "hxx"@, "hh"@], seq!["//"@], true)
}

pub open spec fn is_csharp_lang(l: LanguageRule) -> bool {
    lang_is(l, "C#"@, seq!["cs"@], seq!["//"@], true)
}

pub open spec fn is_ruby_lang(l: LanguageRule) -> bool {
    lang_is(l, "Ruby"@, seq!["rb"@], seq!["#"@], false)
}

/// The canonical catalogue: ten languages, in a fixed order.
pub open spec fn db_wf(langs: Seq<LanguageRule>) -> bool {
    &&& langs.len() == 10
    &&& is_rust_lang(langs[0])
    &&& is_go_lang(langs[1])
    &&& is_python_lang(langs[2])
    &&& is_javascript_lang(langs[3])
    &&& is_typescript_lang(langs[4])
    &&& is_java_lang(langs[5])
    &&& is_c_lang(langs[6])
    &&& is_cpp_lang(langs[7])
    &&& is_csharp_lang(langs[8])
    &&& is_ruby_lang(langs[9])
}

/// Whether a language claims the given extension.
pub open spec fn lang_has_ext(l: LanguageRule, ext: Seq<char>) -> bool {
    exists|j: int| 0 <= j < l.extensions@.len() && l.extensions@[j]@ == ext
}

fn push_str(v: &mut Vec<String>, s: &str)
    ensures
        final(v)@.len() == old(v)@.len() + 1,
        views_of(final(v)@) == views_of(old(v)@).push(s@),
{
    v.push(String::from_str(s));
    proof {
        assert(views_of(final(v)@) =~= views_of(old(v)@).push(s@));
    }
}

fn make_language(
    name: &str,
    exts: Vec<String>,
    lcs: Vec<String>,
    block: bool,
) -> (l: LanguageRule)
    ensures
        l.name@ == name@,
        views_of(l.extensions@) == views_of(exts@),
        views_of(l.line_comments@) == views_of(lcs@),
        if block {
            lang_block(l) == Some(("/*"@, "*/"@))
        } else {
            l.block_comment_start is None && l.block_comment_end is None
        },
{
    let (bs, be): (Option<String>, Option<String>) = if block {
        (Some(String::from_str("/*")), Some(String::from_str("*/")))
    } else {
        (None, None)
    };
    LanguageRule {
        name: String::from_str(name),
        extensions: exts,
        line_comments: lcs,
        block_comment_start: bs,
        block_comment_end: be,
    }
}

/// The process-wide registry of language rules, built once and read-only.
pub struct LanguageDatabase {
    pub languages: Vec<LanguageRule>,
}

fn rust_language() -> (l: LanguageRule)
    ensures
        is_rust_lang(l),
{
    let mut exts: Vec<String> = Vec::new();
    push_str(&mut exts, "rs");
    let mut lcs: Vec<String> = Vec::new();
    push_str(&mut lcs, "//");
    let l = make_language("Rust", exts, lcs, true);
    proof {
        assert(views_of(l.extensions@) =~= seq!["rs"@]);
        assert(views_of(l.line_comments@) =~= seq!["//"@]);
    }
    l
}

fn go_language() -> (l: LanguageRule)
    ensures
        is_go_lang(l),
{
    let mut exts: Vec<String> = Vec::new();
    push_str(&mut exts, "go");
    let mut lcs: Vec<String> = Vec::new();
    push_str(&mut lcs, "//");
    let l = make_language("Go", exts, lcs, true);
    proof {
        assert(views_of(l.extensions@) =~= seq!["go"@]);
        assert(views_of(l.line_comments@) =~= seq!["//"@]);
    }
    l
}

fn python_language() -> (l: LanguageRule)
    ensures
        is_python_lang(l),
{
    let mut exts: Vec<String> = Vec::new();
    push_str(&mut exts, "py");
    push_str(&mut exts, "pyi");
    let mut lcs: Vec<String> = Vec::new();
    push_str(&mut lcs, "#");
    let l = make_language("Python", exts, lcs, false);
    proof {
        assert(views_of(l.extensions@) =~= seq!["py"@, "pyi"@]);
        assert(views_of(l.line_comments@) =~= seq!["#"@]);
    }
    l
}

fn javascript_language() -> (l: LanguageRule)
    ensures
        is_javascript_lang(l),
{
    let mut exts: Vec<String> = Vec::new();
    push_str(&mut exts, "js");
    push_str(&mut exts, "jsx");
    push_str(&mut exts, "mjs");
    push_str(&mut exts, "cjs");
    let mut lcs: Vec<String> = Vec::new();
    push_str(&mut lcs, "//");
    let l = make_language("JavaScript", exts, lcs, true);
    proof {
        assert(views_of(l.extensions@) =~= seq!["js"@, "jsx"@, "mjs"@, "cjs"@]);
        assert(views_of(l.line_comments@) =~= seq!["//"@]);
    }
    l
}

fn typescript_language() -> (l: LanguageRule)
    ensures
        is_typescript_lang(l),
{
    let mut exts: Vec<String> = Vec::new();
    push_str(&mut exts, "ts");
    push_str(&mut exts, "tsx");
    let mut lcs: Vec<String> = Vec::new();
    push_str(&mut lcs, "//");
    let l = make_language("TypeScript", exts, lcs, true);
    proof {
        assert(views_of(l.extensions@) =~= seq!["ts"@, "tsx"@]);
        assert(views_of(l.line_comments@) =~= seq!["//"@]);
    }
    l
}

fn java_language() -> (l: LanguageRule)
    ensures
        is_java_lang(l),
{
    let mut exts: Vec<String> = Vec::new();
    push_str(&mut exts, "java");
    let mut lcs: Vec<String> = Vec::new();
    push_str(&mut lcs, "//");
    let l = make_language("Java", exts, lcs, true);
    proof {
        assert(views_of(l.extensions@) =~= seq!["java"@]);
        assert(views_of(l.line_comments@) =~= seq!["//"@]);
    }
    l
}

fn c_language() -> (l: LanguageRule)
    ensures
        is_c_lang(l),
{
    let mut exts: Vec<String> = Vec::new();
    push_str(&mut exts, "c");
    push_str(&mut exts, "h");
    let mut lcs: Vec<String> = Vec::new();
    push_str(&mut lcs, "//");
    let l = make_language("C", exts, lcs, true);
    proof {
        assert(views_of(l.extensions@) =~= seq!["c"@, "h"@]);
        assert(views_of(l.line_comments@) =~= seq!["//"@]);
    }
    l
}

fn cpp_language() -> (l: LanguageRule)
    ensures
        is_cpp_lang(l),
{
    let mut exts: Vec<String> = Vec::new();
    push_str(&mut exts, "cpp");
    push_str(&mut exts, "cxx");
    push_str(&mut exts, "cc");
    push_str(&mut exts, "hpp");
    push_str(&mut exts, "hxx");
    push_str(&mut exts, "hh");
    let mut lcs: Vec<String> = Vec::new();
    push_str(&mut lcs, "//");
    let l = make_language("C++", exts, lcs, true);
    proof {
        assert(views_of(l.extensions@) =~= seq![
            "cpp"@,
            "cxx"@,
            "cc"@,
            "hpp"@,
            "hxx"@,
            "hh"@,
        ]);
        assert(views_of(l.line_comments@) =~= seq!["//"@]);
    }
    l
}

fn csharp_language() -> (l: LanguageRule)
    ensures
        is_csharp_lang(l),
{
    let mut exts: Vec<String> = Vec::new();
    push_str(&mut exts, "cs");
    let mut lcs: Vec<String> = Vec::new();
    push_str(&mut lcs, "//");
    let l = make_language("C#", exts, lcs, true);
    proof {
        assert(views_of(l.extensions@) =~= seq!["cs"@]);
        assert(views_of(l.line_comments@) =~= seq!["//"@]);
    }
    l
}

fn ruby_language() -> (l: LanguageRule)
    ensures
        is_ruby_lang(l),
{
    let mut exts: Vec<String> = Vec::new();
    push_str(&mut exts, "rb");
    let mut lcs: Vec<String> = Vec::new();
    push_str(&mut lcs, "#");
    let l = make_language("Ruby", exts, lcs, false);
    proof {
        assert(views_of(l.extensions@) =~= seq!["rb"@]);
        assert(views_of(l.line_comments@) =~= seq!["#"@]);
    }
    l
}

impl LanguageDatabase {
    /// Builds the fixed ten-language catalogue.
    pub fn new() -> (r: LanguageDatabase)
        ensures
            db_wf(r.languages@),
    {
        let mut langs: Vec<LanguageRule> = Vec::new();
        langs.push(rust_language());
        langs.push(go_language());
        langs.push(python_language());
        langs.push(javascript_language());
        langs.push(typescript_language());
        langs.push(java_language());
        langs.push(c_language());
        langs.push(cpp_language());
        langs.push(csharp_language());
        langs.push(ruby_language());
        LanguageDatabase { languages: langs }
    }

    /// Looks up the first language in the catalogue that claims `ext`;
    /// unknown extensions yield nothing.
    pub fn from_extension(&self, ext: &str) -> (r: Option<LanguageRule>)
        ensures
            match r {
                Some(l) => exists|i: int|
                    0 <= i < self.languages@.len() && lang_has_ext(self.languages@[i], ext@)
                        && lang_eqv(l, self.languages@[i]) && (forall|k: int|
                        0 <= k < i ==> !lang_has_ext(self.languages@[k], ext@)),
                None => forall|i: int|
                    0 <= i < self.languages@.len() ==> !lang_has_ext(self.languages@[i], ext@),
            },
    {
        let n = self.languages.len();
        let mut i: usize = 0;
        while i < n
            invariant
                n == self.languages@.len(),
                i <= n,
                forall|k: int| 0 <= k < i ==> !lang_has_ext(self.languages@[k], ext@),
            decreases n - i,
        {
            let lang = &self.languages[i];
            let m = lang.extensions.len();
            let mut j: usize = 0;
            while j < m
                invariant
                    m == lang.extensions@.len(),
                    j <= m,
                    forall|q: int| 0 <= q < j ==> lang.extensions@[q]@ != ext@,
                decreases m - j,
            {
                if str_eq(lang.extensions[j].as_str(), ext) {
                    proof {
                        let jj = j as int;
                        assert(*lang == self.languages@[i as int]);
                        assert(0 <= jj < self.languages@[i as int].extensions@.len());
                        assert(self.languages@[i as int].extensions@[jj]@ == ext@);
                        assert(lang_has_ext(self.languages@[i as int], ext@));
                    }
                    let l = clone_language(lang);
                    proof {
                        let ii = i as int;
                        assert(0 <= ii < self.languages@.len() && lang_has_ext(
                            self.languages@[ii],
                            ext@,
                        ) && lang_eqv(l, self.languages@[ii]) && (forall|k: int|
                            0 <= k < ii ==> !lang_has_ext(self.languages@[k], ext@)));
                    }
                    return Some(l);
                }
                j += 1;
            }
            proof {
                assert(!lang_has_ext(self.languages@[i as int], ext@));
            }
            i += 1;
        }
        None
    }
}

fn clone_string_vec(v: &Vec<String>) -> (r: Vec<String>)
    ensures
        r@ == v@,
{
    let n = v.len();
    let mut r: Vec<String> = Vec::new();
    let mut i: usize = 0;
    while i < n
        invariant
            n == v@.len(),
            i <= n,
            r@ =~= v@.subrange(0, i as int),
        decreases n - i,
    {
        r.push(v[i].clone());
        proof {
            assert(r@ =~= v@.subrange(0, i + 1));
        }
        i += 1;
    }
    proof {
        assert(r@ =~= v@);
    }
    r
}

fn clone_opt_string(v: &Option<String>) -> (r: Option<String>)
    ensures
        r == *v,
{
    match v {
        Some(s) => Some(s.clone()),
        None => None,
    }
}

/// A copy of a language descriptor with the same content.
pub fn clone_language(l: &LanguageRule) -> (r: LanguageRule)
    ensures
        lang_eqv(r, *l),
{
    LanguageRule {
        name: l.name.clone(),
        extensions: clone_string_vec(&l.extensions),
        line_comments: clone_string_vec(&l.line_comments),
        block_comment_start: clone_opt_string(&l.block_comment_start),
        block_comment_end: clone_opt_string(&l.block_comment_end),
    }
}

} // verus!
