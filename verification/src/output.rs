//! Output rendering: each formatter turns a `ScanResult` into text without
//! touching it. Shared here: the output format selector and the sorted
//! grouping of items by file path that the text-like formats use.

pub mod csv;
pub mod github_actions;
pub mod markdown;
pub mod text;

use vstd::prelude::*;
use crate::error::TodoError;
use crate::model::{ScanResult, TodoItem};
use crate::scanner::lex_lt;
use crate::strutil::{lower_chars, ascii_lower, str_eq, views_of, lemma_filter_push};

verus! {

/// A renderer from a scan result to text.
pub trait OutputFormatter {
    fn format(&self, result: &ScanResult) -> Result<String, TodoError>;
}

/// The output formats a caller can select.
#[derive(Debug, Clone, PartialEq, Eq)]
pub enum OutputFormat {
    Text,
    Json,
    Csv,
    Markdown,
    Count,
    Sarif,
    GithubActions,
}

/// The format a selector string denotes, compared case-insensitively.
pub open spec fn format_of_str(s: Seq<char>) -> Option<OutputFormat> {
    let t = lower_chars(s);
    if t == "text"@ {
        Some(OutputFormat::Text)
    } else if t == "json"@ {
        Some(OutputFormat::Json)
    } else if t == "csv"@ {
        Some(OutputFormat::Csv)
    } else if t == "markdown"@ || t == "md"@ {
        Some(OutputFormat::Markdown)
    } else if t == "count"@ {
        Some(OutputFormat::Count)
    } else if t == "sarif"@ {
        Some(OutputFormat::Sarif)
    } else if t == "github-actions"@ || t == "github_actions"@ || t == "ga"@ {
        Some(OutputFormat::GithubActions)
    } else {
        None
    }
}

impl OutputFormat {
    /// Recognises a format name, ignoring ASCII case; anything unknown is
    /// an error naming the rejected selector.
    pub fn from_str(s: &str) -> (r: Result<OutputFormat, String>)
        ensures
            match format_of_str(s@) {
                Some(f) => r matches Ok(g) && g == f,
                None => r matches Err(e) && e@ == "Unknown output format: "@ + lower_chars(s@),
            },
    {
        let t = ascii_lower(s);
        let ts = t.as_str();
        if str_eq(ts, "text") {
            Ok(OutputFormat::Text)
        } else if str_eq(ts, "json") {
            Ok(OutputFormat::Json)
        } else if str_eq(ts, "csv") {
            Ok(OutputFormat::Csv)
        } else if str_eq(ts, "markdown") || str_eq(ts, "md") {
            Ok(OutputFormat::Markdown)
        } else if str_eq(ts, "count") {
            Ok(OutputFormat::Count)
        } else if str_eq(ts, "sarif") {
            Ok(OutputFormat::Sarif)
        } else if str_eq(ts, "github-actions") || str_eq(ts, "github_actions") || str_eq(
            ts,
            "ga",
        ) {
            Ok(OutputFormat::GithubActions)
        } else {
            let mut msg = String::from_str("Unknown output format: ");
            msg.append(ts);
            Err(msg)
        }
    }
}

/// Inserts a path into a sorted list of distinct paths, keeping it sorted
/// and dropping a duplicate.
pub open spec fn insert_path(s: Seq<Seq<char>>, x: Seq<char>) -> Seq<Seq<char>>
    decreases s.len(),
{
    if s.len() == 0 {
        seq![x]
    } else if s[0] == x {
        s
    } else if lex_lt(s[0], x) {
        seq![s[0]] + insert_path(s.drop_first(), x)
    } else {
        seq![x] + s
    }
}

/// The distinct file paths of the items from index `i` on, folded into an
/// ordered list starting from `acc`.
pub open spec fn paths_fold(items: Seq<TodoItem>, i: int, acc: Seq<Seq<char>>) -> Seq<Seq<char>>
    decreases items.len() - i,
{
    if i < 0 || i >= items.len() {
        acc
    } else {
        paths_fold(items, i + 1, insert_path(acc, items[i].file@))
    }
}

/// The distinct file paths of an item list, in ascending order.
pub open spec fn sorted_paths(items: Seq<TodoItem>) -> Seq<Seq<char>> {
    paths_fold(items, 0, Seq::empty())
}

/// Compares two strings in code-point order.
pub fn str_lt(a: &str, b: &str) -> (r: bool)
    ensures
        r == lex_lt(a@, b@),
{
    let alen = a.unicode_len();
    let blen = b.unicode_len();
    let mut i: usize = 0;
    proof {
        assert(a@.subrange(0, alen as int) =~= a@);
        assert(b@.subrange(0, blen as int) =~= b@);
    }
    loop
        invariant
            alen == a@.len(),
            blen == b@.len(),
            i <= alen && i <= blen,
            lex_lt(a@, b@) == lex_lt(
                a@.subrange(i as int, alen as int),
                b@.subrange(i as int, blen as int),
            ),
        decreases alen - i,
    {
        let ghost sa = a@.subrange(i as int, alen as int);
        let ghost sb = b@.subrange(i as int, blen as int);
        if i >= blen {
            proof {
                assert(sb =~= Seq::<char>::empty());
            }
            return false;
        }
        if i >= alen {
            proof {
                assert(sa =~= Seq::<char>::empty());
                assert(sb.len() > 0);
            }
            return true;
        }
        let ca = a.get_char(i);
        let cb = b.get_char(i);
        if ca != cb {
            proof {
                assert(sa[0] == a@[i as int] && sb[0] == b@[i as int]);
            }
            return ca < cb;
        }
        proof {
            assert(sa[0] == a@[i as int] && sb[0] == b@[i as int]);
            assert(sa.drop_first() =~= a@.subrange(i + 1, alen as int));
            assert(sb.drop_first() =~= b@.subrange(i + 1, blen as int));
        }
        i += 1;
    }
}

/// Inserting at the first position that is not strictly below `x` realises
/// `insert_path`.
proof fn lemma_insert_path_at(s: Seq<Seq<char>>, x: Seq<char>, k: int)
    requires
        0 <= k <= s.len(),
        forall|j: int| 0 <= j < k ==> lex_lt(#[trigger] s[j], x),
        k < s.len() ==> !lex_lt(s[k], x),
    ensures
        insert_path(s, x) == if k < s.len() && s[k] == x {
            s
        } else {
            s.insert(k, x)
        },
    decreases s.len(),
{
    if s.len() == 0 {
        assert(insert_path(s, x) =~= s.insert(0, x));
    } else if k == 0 {
        if s[0] == x {
        } else {
            assert(insert_path(s, x) =~= s.insert(0, x));
        }
    } else {
        crate::scanner::lemma_lex_lt_irrefl(x);
        assert(s[0] != x) by {
            if s[0] == x {
                assert(lex_lt(x, x));
            }
        }
        lemma_insert_path_at(s.drop_first(), x, k - 1);
        if k < s.len() && s[k] == x {
            assert(s.drop_first()[k - 1] == s[k]);
            assert(insert_path(s, x) == seq![s[0]] + insert_path(s.drop_first(), x));
            assert(insert_path(s, x) =~= s);
        } else {
            assert(insert_path(s, x) == seq![s[0]] + s.drop_first().insert(k - 1, x));
            assert(insert_path(s, x) =~= s.insert(k, x));
        }
    }
}

/// `lemma_insert_path_at`, callable from the sibling formatter modules.
pub(crate) proof fn lemma_insert_path_at_pub(s: Seq<Seq<char>>, x: Seq<char>, k: int)
    requires
        0 <= k <= s.len(),
        forall|j: int| 0 <= j < k ==> lex_lt(#[trigger] s[j], x),
        k < s.len() ==> !lex_lt(s[k], x),
    ensures
        insert_path(s, x) == if k < s.len() && s[k] == x {
            s
        } else {
            s.insert(k, x)
        },
{
    lemma_insert_path_at(s, x, k);
}

/// The position where a path belongs in a sorted list, and whether it is
/// already there.
pub(crate) fn find_insert_pos(acc: &Vec<String>, x: &str) -> (r: (usize, bool))
    ensures
        r.0 <= acc@.len(),
        forall|j: int| 0 <= j < r.0 ==> lex_lt((#[trigger] acc@[j])@, x@),
        r.1 ==> r.0 < acc@.len() && acc@[r.0 as int]@ == x@,
        !r.1 && r.0 < acc@.len() ==> !lex_lt(acc@[r.0 as int]@, x@) && acc@[r.0 as int]@ != x@,
{
    let m = acc.len();
    let mut k: usize = 0;
    while k < m
        invariant
            m == acc@.len(),
            k <= m,
            forall|j: int| 0 <= j < k ==> lex_lt((#[trigger] acc@[j])@, x@),
        decreases m - k,
    {
        if str_eq(acc[k].as_str(), x) {
            return (k, true);
        }
        if !str_lt(acc[k].as_str(), x) {
            return (k, false);
        }
        k += 1;
    }
    (k, false)
}

/// The distinct file paths of an item list, ascending.
pub fn collect_sorted_paths(items: &Vec<TodoItem>) -> (r: Vec<String>)
    ensures
        views_of(r@) == sorted_paths(items@),
{
    let n = items.len();
    let mut acc: Vec<String> = Vec::new();
    let mut i: usize = 0;
    proof {
        assert(views_of(acc@) =~= Seq::<Seq<char>>::empty());
    }
    while i < n
        invariant
            n == items@.len(),
            i <= n,
            sorted_paths(items@) == paths_fold(items@, i as int, views_of(acc@)),
        decreases n - i,
    {
        let x = items[i].file.as_str();
        let m = acc.len();
        let (k, dup) = find_insert_pos(&acc, x);
        let ghost prev = views_of(acc@);
        proof {
            assert forall|j: int| 0 <= j < k implies lex_lt(#[trigger] prev[j], x@) by {
                assert(prev[j] == acc@[j]@);
            }
        }
        if dup {
            proof {
                let kk = k as int;
                assert(prev[kk] == acc@[kk]@);
                assert(prev[kk] == x@);
                crate::scanner::lemma_lex_lt_irrefl(x@);
                lemma_insert_path_at(prev, x@, kk);
                assert(views_of(acc@) =~= insert_path(prev, x@));
            }
        } else {
            proof {
                if k < acc@.len() {
                    assert(prev[k as int] == acc@[k as int]@);
                    assert(!lex_lt(prev[k as int], x@) && prev[k as int] != x@);
                }
                lemma_insert_path_at(prev, x@, k as int);
            }
            acc.insert(k, String::from_str(x));
            proof {
                assert(views_of(acc@) =~= prev.insert(k as int, x@));
                assert(views_of(acc@) =~= insert_path(prev, x@));
            }
        }
        i += 1;
    }
    proof {
        assert(sorted_paths(items@) == paths_fold(items@, n as int, views_of(acc@)));
    }
    acc
}

/// The items whose file is `p`, in order.
pub open spec fn items_of_path(items: Seq<TodoItem>, p: Seq<char>) -> Seq<TodoItem> {
    items.filter(|it: TodoItem| it.file@ == p)
}

/// Collects the items of one file, in order.
pub fn collect_items_of_path(items: &Vec<TodoItem>, p: &str) -> (r: Vec<TodoItem>)
    ensures
        r@ == items_of_path(items@, p@),
{
    let ghost pred = |it: TodoItem| it.file@ == p@;
    let n = items.len();
    let mut out: Vec<TodoItem> = Vec::new();
    let mut i: usize = 0;
    proof {
        reveal(Seq::filter);
        assert(items@.subrange(0, 0) =~= Seq::<TodoItem>::empty());
        assert(items@.subrange(0, 0).filter(pred) =~= Seq::<TodoItem>::empty());
    }
    while i < n
        invariant
            n == items@.len(),
            i <= n,
            out@ == items@.subrange(0, i as int).filter(pred),
        decreases n - i,
    {
        let ghost pre = items@.subrange(0, i as int);
        proof {
            assert(items@.subrange(0, i + 1) =~= pre.push(items@[i as int]));
            lemma_filter_push(pre, pred, items@[i as int]);
        }
        if str_eq(items[i].file.as_str(), p) {
            out.push(items[i].clone_item());
        }
        i += 1;
    }
    proof {
        assert(items@.subrange(0, n as int) =~= items@);
    }
    out
}

} // verus!
