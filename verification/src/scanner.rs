//! The scanning pipeline: language rules, the lexical candidate extractor,
//! the AST-backed precision pass, the incremental per-file step, and the
//! aggregation of per-file results into a `ScanResult`.

pub mod incremental;
pub mod languages;
pub mod regex;
pub mod treesitter;

use vstd::prelude::*;
use crate::model::{ScanMetadata, ScanResult, ScanStats, TodoItem, tag_text, hist_count, hist_wf};
use crate::strutil::str_eq;

verus! {

/// Strict lexicographic order on character sequences, by code point.
pub open spec fn lex_lt(a: Seq<char>, b: Seq<char>) -> bool
    decreases a.len(),
{
    if b.len() == 0 {
        false
    } else if a.len() == 0 {
        true
    } else if a[0] != b[0] {
        a[0] < b[0]
    } else {
        lex_lt(a.drop_first(), b.drop_first())
    }
}

/// The aggregation order on items: by file path, then by line number.
pub open spec fn key_le(a: TodoItem, b: TodoItem) -> bool {
    ||| lex_lt(a.file@, b.file@)
    ||| (a.file@ == b.file@ && a.line <= b.line)
}

pub proof fn lemma_lex_lt_irrefl(a: Seq<char>)
    ensures
        !lex_lt(a, a),
    decreases a.len(),
{
    if a.len() > 0 {
        lemma_lex_lt_irrefl(a.drop_first());
    }
}

pub proof fn lemma_lex_trichotomy(a: Seq<char>, b: Seq<char>)
    ensures
        lex_lt(a, b) || lex_lt(b, a) || a == b,
    decreases a.len(),
{
    if a.len() == 0 || b.len() == 0 {
        if a.len() == 0 && b.len() == 0 {
            assert(a =~= b);
        }
    } else if a[0] == b[0] {
        lemma_lex_trichotomy(a.drop_first(), b.drop_first());
        if a.drop_first() == b.drop_first() {
            assert(a.drop_first().len() == a.len() - 1);
            assert(b.drop_first().len() == b.len() - 1);
            assert(a.len() == b.len());
            assert forall|i: int| 0 <= i < a.len() implies a[i] == b[i] by {
                if i > 0 {
                    assert(a[i] == a.drop_first()[i - 1]);
                    assert(b[i] == b.drop_first()[i - 1]);
                }
            }
            assert(a =~= b);
        }
    }
}

pub proof fn lemma_lex_lt_trans(a: Seq<char>, b: Seq<char>, c: Seq<char>)
    requires
        lex_lt(a, b),
        lex_lt(b, c),
    ensures
        lex_lt(a, c),
    decreases a.len() + b.len() + c.len(),
{
    if a.len() > 0 && b.len() > 0 && c.len() > 0 && a[0] == b[0] && b[0] == c[0] {
        lemma_lex_lt_trans(a.drop_first(), b.drop_first(), c.drop_first());
    }
}

/// The aggregation order is total.
pub proof fn lemma_key_total(a: TodoItem, b: TodoItem)
    ensures
        key_le(a, b) || key_le(b, a),
{
    lemma_lex_trichotomy(a.file@, b.file@);
}

/// The aggregation order is transitive.
pub proof fn lemma_key_trans(a: TodoItem, b: TodoItem, c: TodoItem)
    requires
        key_le(a, b),
        key_le(b, c),
    ensures
        key_le(a, c),
{
    if lex_lt(a.file@, b.file@) && lex_lt(b.file@, c.file@) {
        lemma_lex_lt_trans(a.file@, b.file@, c.file@);
    }
}

/// Inserts an item after every element that is less than or equal to it:
/// the insertion step of a stable insertion sort.
pub open spec fn sorted_insert(s: Seq<TodoItem>, x: TodoItem) -> Seq<TodoItem>
    decreases s.len(),
{
    if s.len() == 0 {
        seq![x]
    } else if key_le(s[0], x) {
        seq![s[0]] + sorted_insert(s.drop_first(), x)
    } else {
        seq![x] + s
    }
}

/// The stable sort of an item sequence by (file, line): items are taken in
/// order and each inserted after its equals.
pub open spec fn stable_sorted(s: Seq<TodoItem>) -> Seq<TodoItem>
    decreases s.len(),
{
    if s.len() == 0 {
        Seq::empty()
    } else {
        sorted_insert(stable_sorted(s.drop_last()), s.last())
    }
}

pub open spec fn sorted_by_key(s: Seq<TodoItem>) -> bool {
    forall|p: int, q: int| 0 <= p < q < s.len() ==> key_le(#[trigger] s[p], #[trigger] s[q])
}

proof fn lemma_sorted_insert_len(s: Seq<TodoItem>, x: TodoItem)
    ensures
        sorted_insert(s, x).len() == s.len() + 1,
    decreases s.len(),
{
    if s.len() > 0 && key_le(s[0], x) {
        lemma_sorted_insert_len(s.drop_first(), x);
    }
}

/// Every element of `sorted_insert(s, x)` is `x` or an element of `s`.
proof fn lemma_sorted_insert_elems(s: Seq<TodoItem>, x: TodoItem, i: int)
    requires
        0 <= i < sorted_insert(s, x).len(),
    ensures
        sorted_insert(s, x)[i] == x || exists|k: int|
            0 <= k < s.len() && s[k] == sorted_insert(s, x)[i],
    decreases s.len(),
{
    lemma_sorted_insert_len(s, x);
    if s.len() == 0 {
    } else if key_le(s[0], x) {
        if i == 0 {
            assert(sorted_insert(s, x)[0] == s[0]);
        } else {
            lemma_sorted_insert_elems(s.drop_first(), x, i - 1);
            let t = sorted_insert(s.drop_first(), x);
            assert(sorted_insert(s, x)[i] == t[i - 1]);
            if t[i - 1] != x {
                let k = choose|k: int|
                    0 <= k < s.drop_first().len() && s.drop_first()[k] == t[i - 1];
                assert(s[k + 1] == t[i - 1]);
            }
        }
    }
}

/// Inserting into a sorted sequence keeps it sorted.
proof fn lemma_sorted_insert_sorted(s: Seq<TodoItem>, x: TodoItem)
    requires
        sorted_by_key(s),
    ensures
        sorted_by_key(sorted_insert(s, x)),
    decreases s.len(),
{
    lemma_sorted_insert_len(s, x);
    if s.len() == 0 {
    } else if key_le(s[0], x) {
        assert(sorted_by_key(s.drop_first())) by {
            assert(forall|p: int, q: int|
                0 <= p < q < s.drop_first().len() ==> key_le(
                    #[trigger] s.drop_first()[p],
                    #[trigger] s.drop_first()[q],
                ));
        }
        lemma_sorted_insert_sorted(s.drop_first(), x);
        let t = sorted_insert(s.drop_first(), x);
        let r = seq![s[0]] + t;
        assert forall|p: int, q: int| 0 <= p < q < r.len() implies key_le(
            #[trigger] r[p],
            #[trigger] r[q],
        ) by {
            if p == 0 {
                assert(r[q] == t[q - 1]);
                lemma_sorted_insert_elems(s.drop_first(), x, q - 1);
                if t[q - 1] == x {
                    assert(key_le(s[0], x));
                } else {
                    let k = choose|k: int|
                        0 <= k < s.drop_first().len() && s.drop_first()[k] == t[q - 1];
                    assert(s.drop_first()[k] == s[k + 1]);
                    assert(key_le(s[0], s[k + 1]));
                }
            } else {
                assert(r[p] == t[p - 1]);
                assert(r[q] == t[q - 1]);
            }
        }
    } else {
        let r = seq![x] + s;
        assert forall|p: int, q: int| 0 <= p < q < r.len() implies key_le(
            #[trigger] r[p],
            #[trigger] r[q],
        ) by {
            if p == 0 {
                assert(r[q] == s[q - 1]);
                lemma_key_total(s[0], x);
                assert(key_le(x, s[0]));
                if q - 1 > 0 {
                    assert(key_le(s[0], s[q - 1]));
                    lemma_key_trans(x, s[0], s[q - 1]);
                }
            } else {
                assert(r[p] == s[p - 1]);
                assert(r[q] == s[q - 1]);
            }
        }
    }
}

/// When the first `k` elements are below-or-equal `x` and the `k`-th is
/// not, inserting `x` at index `k` is exactly the stable insertion.
proof fn lemma_sorted_insert_at(s: Seq<TodoItem>, x: TodoItem, k: int)
    requires
        0 <= k <= s.len(),
        forall|j: int| 0 <= j < k ==> key_le(#[trigger] s[j], x),
        k < s.len() ==> !key_le(s[k], x),
    ensures
        sorted_insert(s, x) == s.insert(k, x),
    decreases s.len(),
{
    if s.len() == 0 {
        assert(sorted_insert(s, x) =~= s.insert(0, x));
    } else if k == 0 {
        assert(!key_le(s[0], x));
        assert(sorted_insert(s, x) =~= s.insert(0, x));
    } else {
        assert(key_le(s[0], x));
        lemma_sorted_insert_at(s.drop_first(), x, k - 1);
        assert(sorted_insert(s, x) == seq![s[0]] + sorted_insert(s.drop_first(), x));
        assert(sorted_insert(s, x) =~= s.insert(k, x));
    }
}

fn key_le_exec(a: &TodoItem, b: &TodoItem) -> (r: bool)
    ensures
        r == key_le(*a, *b),
{
    let alen = a.file.as_str().unicode_len();
    let blen = b.file.as_str().unicode_len();
    let mut i: usize = 0;
    let ghost av = a.file@;
    let ghost bv = b.file@;
    proof {
        assert(av.subrange(0, alen as int) =~= av);
        assert(bv.subrange(0, blen as int) =~= bv);
    }
    loop
        invariant
            alen == av.len(),
            blen == bv.len(),
            av == a.file@,
            bv == b.file@,
            i <= alen && i <= blen,
            lex_lt(av, bv) == lex_lt(
                av.subrange(i as int, alen as int),
                bv.subrange(i as int, blen as int),
            ),
            (av == bv) == (av.subrange(i as int, alen as int) == bv.subrange(
                i as int,
                blen as int,
            )),
        decreases alen - i,
    {
        let ghost sa = av.subrange(i as int, alen as int);
        let ghost sb = bv.subrange(i as int, blen as int);
        if i >= alen || i >= blen {
            if i >= alen && i >= blen {
                proof {
                    assert(sa =~= Seq::<char>::empty());
                    assert(sb =~= Seq::<char>::empty());
                }
                return a.line <= b.line;
            } else if i >= alen {
                proof {
                    assert(sa =~= Seq::<char>::empty());
                    assert(sb.len() > 0);
                    assert(lex_lt(sa, sb));
                }
                return true;
            } else {
                proof {
                    assert(sb =~= Seq::<char>::empty());
                    assert(!lex_lt(sa, sb));
                    assert(sa.len() > 0);
                    assert(sa != sb) by {
                        assert(sa.len() != sb.len());
                    }
                }
                return false;
            }
        }
        let ca = a.file.as_str().get_char(i);
        let cb = b.file.as_str().get_char(i);
        if ca != cb {
            proof {
                assert(sa[0] == av[i as int] && sb[0] == bv[i as int]);
                assert(lex_lt(sa, sb) == (av[i as int] < bv[i as int]));
                assert(sa != sb) by {
                    assert(sa[0] != sb[0]);
                }
            }
            return ca < cb;
        }
        proof {
            assert(sa[0] == av[i as int] && sb[0] == bv[i as int]);
            assert(sa[0] == sb[0]);
            assert(sa.drop_first() =~= av.subrange(i + 1, alen as int));
            assert(sb.drop_first() =~= bv.subrange(i + 1, blen as int));
            assert((sa == sb) == (sa.drop_first() == sb.drop_first())) by {
                if sa.drop_first() == sb.drop_first() {
                    assert(sa.len() == sb.len());
                    assert forall|q: int| 0 <= q < sa.len() implies sa[q] == sb[q] by {
                        if q > 0 {
                            assert(sa[q] == sa.drop_first()[q - 1]);
                            assert(sb[q] == sb.drop_first()[q - 1]);
                        }
                    }
                    assert(sa =~= sb);
                }
            }
        }
        i += 1;
    }
}

/// Sorts items by (file path, line number), stably: an item is placed
/// after every earlier item with the same key.
pub fn sort_items(items: Vec<TodoItem>) -> (r: Vec<TodoItem>)
    ensures
        r@ == stable_sorted(items@),
        sorted_by_key(r@),
        r@.len() == items@.len(),
{
    let n = items.len();
    let mut out: Vec<TodoItem> = Vec::new();
    let mut i: usize = 0;
    proof {
        assert(items@.subrange(0, 0) =~= Seq::<TodoItem>::empty());
        assert(out@ =~= stable_sorted(items@.subrange(0, 0)));
    }
    while i < n
        invariant
            n == items@.len(),
            i <= n,
            out@ == stable_sorted(items@.subrange(0, i as int)),
            out@.len() == i,
            sorted_by_key(out@),
        decreases n - i,
    {
        let x = items[i].clone_item();
        let m = out.len();
        let mut k: usize = 0;
        loop
            invariant
                m == out@.len(),
                k <= m,
                x == items@[i as int],
                forall|j: int| 0 <= j < k ==> key_le(#[trigger] out@[j], x),
            decreases m - k,
        {
            if k >= m {
                break;
            }
            if !key_le_exec(&out[k], &x) {
                break;
            }
            k += 1;
        }
        let ghost prev = out@;
        proof {
            lemma_sorted_insert_at(prev, x, k as int);
            lemma_sorted_insert_sorted(prev, x);
            lemma_sorted_insert_len(prev, x);
        }
        out.insert(k, x);
        proof {
            assert(items@.subrange(0, i + 1).drop_last() =~= items@.subrange(0, i as int));
            assert(items@.subrange(0, i + 1).last() == items@[i as int]);
            assert(out@ == prev.insert(k as int, x));
            assert(out@ == stable_sorted(items@.subrange(0, i + 1)));
        }
        i += 1;
    }
    proof {
        assert(items@.subrange(0, n as int) =~= items@);
    }
    out
}

/// The number of items whose tag displays as `k`.
pub open spec fn count_tag(items: Seq<TodoItem>, k: Seq<char>) -> int
    decreases items.len(),
{
    if items.len() == 0 {
        0
    } else {
        count_tag(items.drop_last(), k) + if tag_text(items.last().tag) == k {
            1int
        } else {
            0int
        }
    }
}

proof fn lemma_count_tag_bound(items: Seq<TodoItem>, k: Seq<char>)
    ensures
        0 <= count_tag(items, k) <= items.len(),
    decreases items.len(),
{
    if items.len() > 0 {
        lemma_count_tag_bound(items.drop_last(), k);
    }
}

/// The distinct file paths of an item list, in first-appearance order.
pub open spec fn distinct_files(items: Seq<TodoItem>) -> Seq<Seq<char>>
    decreases items.len(),
{
    if items.len() == 0 {
        Seq::empty()
    } else {
        let pre = distinct_files(items.drop_last());
        if pre.contains(items.last().file@) {
            pre
        } else {
            pre.push(items.last().file@)
        }
    }
}

/// Derives the aggregate statistics from a final item list: the total is
/// the item count, the histogram counts each tag's occurrences, and the
/// file count is the number of distinct paths among the items.
pub fn derive_stats(items: &Vec<TodoItem>, files_scanned: usize) -> (r: ScanStats)
    ensures
        r.files_scanned == files_scanned,
        r.total_todos == items@.len(),
        r.files_with_todos == distinct_files(items@).len(),
        hist_wf(r.by_tag@),
        forall|k: Seq<char>| hist_count(r.by_tag@, k) == count_tag(items@, k),
{
    let n = items.len();
    let mut stats = ScanStats::new();
    stats.files_scanned = files_scanned;
    let mut seen: Vec<String> = Vec::new();
    let mut i: usize = 0;
    proof {
        assert(items@.subrange(0, 0) =~= Seq::<TodoItem>::empty());
        assert(crate::strutil::views_of(seen@) =~= Seq::<Seq<char>>::empty());
        assert(distinct_files(items@.subrange(0, 0)) =~= Seq::<Seq<char>>::empty());
        assert forall|k: Seq<char>|
            hist_count(stats.by_tag@, k) == count_tag(items@.subrange(0, 0), k) by {
            crate::model::lemma_hist_count_absent(stats.by_tag@, k);
        }
    }
    while i < n
        invariant
            n == items@.len(),
            i <= n,
            stats.files_scanned == files_scanned,
            stats.total_todos == i,
            hist_wf(stats.by_tag@),
            forall|k: Seq<char>|
                hist_count(stats.by_tag@, k) == count_tag(items@.subrange(0, i as int), k),
            crate::strutil::views_of(seen@) == distinct_files(items@.subrange(0, i as int)),
            stats.files_with_todos == seen@.len(),
            seen@.len() <= i,
        decreases n - i,
    {
        let ghost pre = items@.subrange(0, i as int);
        let ghost cur = items@.subrange(0, i + 1);
        proof {
            assert(cur.drop_last() =~= pre);
            assert(cur.last() == items@[i as int]);
            lemma_count_tag_bound(pre, tag_text(items@[i as int].tag));
        }
        stats.add_item(&items[i]);
        proof {
            assert forall|k: Seq<char>| hist_count(stats.by_tag@, k) == count_tag(cur, k) by {
                if k == tag_text(items@[i as int].tag) {
                    assert(count_tag(cur, k) == count_tag(pre, k) + 1);
                } else {
                    assert(count_tag(cur, k) == count_tag(pre, k));
                }
            }
        }
        let m = seen.len();
        let mut k: usize = 0;
        let mut found = false;
        loop
            invariant
                m == seen@.len(),
                k <= m,
                found ==> crate::strutil::views_of(seen@).contains(items@[i as int].file@),
                !found ==> forall|j: int| 0 <= j < k ==> seen@[j]@ != items@[i as int].file@,
            decreases m - k,
        {
            if k >= m {
                break;
            }
            if str_eq(seen[k].as_str(), items[i].file.as_str()) {
                proof {
                    assert(crate::strutil::views_of(seen@)[k as int] == seen@[k as int]@);
                }
                found = true;
                break;
            }
            k += 1;
        }
        if !found {
            proof {
                assert forall|j: int|
                    0 <= j < crate::strutil::views_of(seen@).len() implies crate::strutil::views_of(
                    seen@,
                )[j] != items@[i as int].file@ by {
                    assert(crate::strutil::views_of(seen@)[j] == seen@[j]@);
                }
                assert(!crate::strutil::views_of(seen@).contains(items@[i as int].file@));
            }
            let ghost prev_seen = seen@;
            seen.push(items[i].file.clone());
            stats.files_with_todos = stats.files_with_todos + 1;
            proof {
                assert(crate::strutil::views_of(seen@) =~= crate::strutil::views_of(
                    prev_seen,
                ).push(items@[i as int].file@));
                assert(crate::strutil::views_of(seen@) =~= distinct_files(cur));
            }
        } else {
            proof {
                assert(crate::strutil::views_of(seen@) =~= distinct_files(cur));
            }
        }
        i += 1;
    }
    proof {
        assert(items@.subrange(0, n as int) =~= items@);
    }
    stats
}

proof fn lemma_stable_sorted_len(s: Seq<TodoItem>)
    ensures
        stable_sorted(s).len() == s.len(),
    decreases s.len(),
{
    if s.len() > 0 {
        lemma_stable_sorted_len(s.drop_last());
        lemma_sorted_insert_len(stable_sorted(s.drop_last()), s.last());
    }
}

/// Assembles the value a whole scan returns: the items sorted by (file,
/// line), the statistics derived from exactly that final list, and the run
/// metadata.
pub fn build_scan_result(
    items: Vec<TodoItem>,
    files_scanned: usize,
    scan_duration_ms: u64,
    root_path: String,
    timestamp: String,
) -> (r: ScanResult)
    ensures
        r.items@ == stable_sorted(items@),
        sorted_by_key(r.items@),
        r.stats.files_scanned == files_scanned,
        r.stats.total_todos == items@.len(),
        r.stats.files_with_todos == distinct_files(r.items@).len(),
        hist_wf(r.stats.by_tag@),
        forall|k: Seq<char>| hist_count(r.stats.by_tag@, k) == count_tag(r.items@, k),
        r.metadata.scan_duration_ms == scan_duration_ms,
        r.metadata.root_path@ == root_path@,
        r.metadata.timestamp@ == timestamp@,
{
    let ghost orig = items@;
    let sorted = sort_items(items);
    let stats = derive_stats(&sorted, files_scanned);
    ScanResult {
        items: sorted,
        stats,
        metadata: ScanMetadata { scan_duration_ms, root_path, timestamp },
    }
}

} // verus!
