//! Comparing the annotations of two revisions: items are identified by
//! (file, tag, message), and the diff reports what appears only on one
//! side.

use vstd::prelude::*;
use crate::model::{TodoItem, tag_text};
use crate::strutil::{str_eq, lemma_filter_push};

verus! {

/// The outcome of a diff between two revisions.
#[derive(Debug)]
pub struct DiffResult {
    pub added: Vec<TodoItem>,
    pub removed: Vec<TodoItem>,
    pub base_ref: String,
    pub head_ref: String,
}

/// Two items denote the same annotation for diffing purposes: same file,
/// same tag text, same message.
pub open spec fn same_key(a: TodoItem, b: TodoItem) -> bool {
    a.file@ == b.file@ && tag_text(a.tag) == tag_text(b.tag) && a.message@ == b.message@
}

/// Some item in `s` has the same key as `it`.
pub open spec fn key_present(s: Seq<TodoItem>, it: TodoItem) -> bool {
    exists|k: int| 0 <= k < s.len() && same_key(#[trigger] s[k], it)
}

fn same_key_exec(a: &TodoItem, b: &TodoItem) -> (r: bool)
    ensures
        r == same_key(*a, *b),
{
    str_eq(a.file.as_str(), b.file.as_str()) && str_eq(a.tag.as_str(), b.tag.as_str()) && str_eq(
        a.message.as_str(),
        b.message.as_str(),
    )
}

fn key_present_exec(s: &Vec<TodoItem>, it: &TodoItem) -> (r: bool)
    ensures
        r == key_present(s@, *it),
{
    let n = s.len();
    let mut k: usize = 0;
    while k < n
        invariant
            n == s@.len(),
            k <= n,
            forall|j: int| 0 <= j < k ==> !same_key(#[trigger] s@[j], *it),
        decreases n - k,
    {
        if same_key_exec(&s[k], it) {
            return true;
        }
        k += 1;
    }
    false
}

/// The items of one side whose key the other side lacks, in order.
pub open spec fn only_in(side: Seq<TodoItem>, other: Seq<TodoItem>) -> Seq<TodoItem> {
    side.filter(|it: TodoItem| !key_present(other, it))
}

fn items_only_in(side: &Vec<TodoItem>, other: &Vec<TodoItem>) -> (r: Vec<TodoItem>)
    ensures
        r@ == only_in(side@, other@),
{
    let ghost pred = |it: TodoItem| !key_present(other@, it);
    let n = side.len();
    let mut out: Vec<TodoItem> = Vec::new();
    let mut i: usize = 0;
    proof {
        reveal(Seq::filter);
        assert(side@.subrange(0, 0) =~= Seq::<TodoItem>::empty());
        assert(side@.subrange(0, 0).filter(pred) =~= Seq::<TodoItem>::empty());
    }
    while i < n
        invariant
            n == side@.len(),
            i <= n,
            out@ == side@.subrange(0, i as int).filter(pred),
        decreases n - i,
    {
        let ghost pre = side@.subrange(0, i as int);
        proof {
            assert(side@.subrange(0, i + 1) =~= pre.push(side@[i as int]));
            lemma_filter_push(pre, pred, side@[i as int]);
        }
        if !key_present_exec(other, &side[i]) {
            out.push(side[i].clone_item());
        }
        i += 1;
    }
    proof {
        assert(side@.subrange(0, n as int) =~= side@);
    }
    out
}

/// Compares the annotations of two revisions: `added` holds the head items
/// whose (file, tag, message) key the base lacks, `removed` the base items
/// whose key the head lacks, each in its side's order.
pub fn diff_items(
    base_todos: &Vec<TodoItem>,
    head_todos: &Vec<TodoItem>,
    base_ref: &str,
    head_ref: &str,
) -> (r: DiffResult)
    ensures
        r.added@ == only_in(head_todos@, base_todos@),
        r.removed@ == only_in(base_todos@, head_todos@),
        r.base_ref@ == base_ref@,
        r.head_ref@ == head_ref@,
{
    DiffResult {
        added: items_only_in(head_todos, base_todos),
        removed: items_only_in(base_todos, head_todos),
        base_ref: String::from_str(base_ref),
        head_ref: String::from_str(head_ref),
    }
}

} // verus!
