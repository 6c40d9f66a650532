//! The incremental per-file step: consult the cache's fingerprint first;
//! only a stale or unknown file is re-extracted and its results stored.
//! The round-trip law shows that a cache hit reproduces a fresh scan's
//! items field for field.

use vstd::prelude::*;
use crate::cache::db::{CacheDb, CacheRow, fp_of, rows_of, stored_rows, fresh_in,
    rows_encode_items, items_decode_rows, row_encodes_item, item_decodes_row};
use crate::model::{Priority, TodoItem, tag_text, tag_of_text, is_fixed_tag_text,
    priority_of_token};
use crate::scanner::regex::{RegexScanner, cand_of, cands_of, scan_of, ext_of_path, items_wf};
use crate::strutil::{upper_chars, lower_chars};

verus! {

broadcast use vstd::string::group_string_axioms;

/// The cached items for a file whose stored fingerprint matches, or nothing
/// when the file is stale or unknown. A caller gets `Some` exactly when the
/// cache is fresh for this (path, mtime, size) triple, and then need not
/// read the file at all.
pub fn cached_items_if_fresh(cache: &CacheDb, path: &str, mtime: u64, size: u64) -> (r: Option<
    Vec<TodoItem>,
>)
    ensures
        r is Some <==> fresh_in(fp_of(*cache), path@, mtime, size),
        r matches Some(items) ==> items_decode_rows(
            items@,
            path@,
            stored_rows(rows_of(*cache), path@),
        ),
{
    if cache.is_file_fresh(path, mtime, size) {
        Some(cache.get_todos(path))
    } else {
        None
    }
}

/// Extracts a stale file's items and stores them together with the file's
/// fingerprint. A storage failure is swallowed: the freshly extracted items
/// are returned either way; on success the cache afterwards holds exactly
/// these items under a fingerprint that makes the file fresh, on failure
/// the fingerprint is unchanged, and other paths' rows are never touched.
pub fn scan_and_store(
    scanner: &RegexScanner,
    cache: &mut CacheDb,
    path: &str,
    mtime: u64,
    size: u64,
    content: &str,
) -> (r: (Vec<TodoItem>, bool))
    requires
        scanner.wf(),
    ensures
        cands_of(r.0@) == scan_of(content@, ext_of_path(path@)),
        items_wf(r.0@, path@),
        r.1 ==> {
            &&& fresh_in(fp_of(*final(cache)), path@, mtime, size)
            &&& rows_encode_items(stored_rows(rows_of(*final(cache)), path@), r.0@)
        },
        !r.1 ==> fp_of(*final(cache)) == fp_of(*old(cache)),
        rows_of(*final(cache)).remove(path@) == rows_of(*old(cache)).remove(path@),
{
    let items = scanner.scan_content(path, content);
    let stored = match cache.store_file(path, mtime, size, &items) {
        Ok(_) => true,
        Err(_) => false,
    };
    (items, stored)
}

proof fn lemma_upper_fixed_tags()
    ensures
        upper_chars("TODO"@) == "TODO"@,
        upper_chars("FIXME"@) == "FIXME"@,
        upper_chars("HACK"@) == "HACK"@,
        upper_chars("BUG"@) == "BUG"@,
        upper_chars("XXX"@) == "XXX"@,
{
    reveal_strlit("TODO");
    reveal_strlit("FIXME");
    reveal_strlit("HACK");
    reveal_strlit("BUG");
    reveal_strlit("XXX");
    assert(upper_chars("TODO"@) =~= "TODO"@);
    assert(upper_chars("FIXME"@) =~= "FIXME"@);
    assert(upper_chars("HACK"@) =~= "HACK"@);
    assert(upper_chars("BUG"@) =~= "BUG"@);
    assert(upper_chars("XXX"@) =~= "XXX"@);
}

proof fn lemma_seq_neq_at_chars(a: Seq<char>, b: Seq<char>, i: int)
    requires
        0 <= i < a.len(),
        0 <= i < b.len(),
        a[i] != b[i],
    ensures
        a != b,
{
}

/// The canonical priority names parse back to their priorities.
proof fn lemma_priority_names()
    ensures
        priority_of_token("low"@) == Some(Priority::Low),
        priority_of_token("medium"@) == Some(Priority::Medium),
        priority_of_token("high"@) == Some(Priority::High),
        priority_of_token("critical"@) == Some(Priority::Critical),
{
    reveal_strlit("low");
    reveal_strlit("p:low");
    reveal_strlit("p3");
    reveal_strlit("medium");
    reveal_strlit("med");
    reveal_strlit("p:medium");
    reveal_strlit("p:med");
    reveal_strlit("p2");
    reveal_strlit("high");
    reveal_strlit("p:high");
    reveal_strlit("p1");
    reveal_strlit("critical");
    reveal_strlit("crit");
    reveal_strlit("p:critical");
    reveal_strlit("p:crit");
    reveal_strlit("p0");
    assert(lower_chars("low"@) =~= "low"@);
    assert(lower_chars("medium"@) =~= "medium"@);
    assert(lower_chars("high"@) =~= "high"@);
    assert(lower_chars("critical"@) =~= "critical"@);
    assert(priority_of_token("low"@) == Some(Priority::Low));
    assert("medium"@.len() == 6 && "low"@.len() == 3 && "p:low"@.len() == 5 && "p3"@.len() == 2);
    assert(priority_of_token("medium"@) == Some(Priority::Medium)) by {
        assert("med"@.len() == 3 && "p:medium"@.len() == 8 && "p:med"@.len() == 5 && "p2"@.len()
            == 2);
    }
    assert(priority_of_token("high"@) == Some(Priority::High)) by {
        assert("high"@.len() == 4);
    }
    assert(priority_of_token("critical"@) == Some(Priority::Critical)) by {
        assert("critical"@.len() == 8 && "p:medium"@.len() == 8);
        assert("critical"@[0] == 'c' && "p:medium"@[0] == 'p');
        lemma_seq_neq_at_chars("critical"@, "p:medium"@, 0);
        assert("p:high"@.len() == 6 && "p1"@.len() == 2 && "crit"@.len() == 4 && "p:critical"@.len()
            == 10 && "p:crit"@.len() == 6 && "p0"@.len() == 2);
    }
}

/// The idempotence of a cached re-scan: items stored for a path and read
/// back decode to items with exactly the original fields, in the original
/// order. Together with the freshness law, re-scanning an unchanged file
/// through the cache reproduces a fresh scan's item list.
pub proof fn lemma_cache_round_trip(
    items: Seq<TodoItem>,
    rows: Seq<CacheRow>,
    path: Seq<char>,
    out: Seq<TodoItem>,
)
    requires
        rows_encode_items(rows, items),
        items_decode_rows(out, path, rows),
        items_wf(items, path),
    ensures
        out.len() == items.len(),
        forall|j: int| 0 <= j < out.len() ==> #[trigger] cand_of(out[j]) == cand_of(items[j]),
        items_wf(out, path),
{
    lemma_upper_fixed_tags();
    lemma_priority_names();
    assert forall|j: int| 0 <= j < out.len() implies #[trigger] cand_of(out[j]) == cand_of(
        items[j],
    ) by {
        let r = rows[j];
        let a = items[j];
        let b = out[j];
        assert(row_encodes_item(r, a));
        assert(item_decodes_row(b, path, r));
        assert(!(a.tag is Custom));
        assert(tag_text(b.tag) == tag_of_text(r.tag@));
        assert(tag_text(b.tag) == upper_chars(tag_text(a.tag)));
        assert(tag_text(b.tag) == tag_text(a.tag));
        assert(b.line == a.line && b.column == a.column);
        match (r.priority, a.priority) {
            (Some(p), Some(Priority::Low)) => {
                assert(b.priority == priority_of_token("low"@));
            },
            (Some(p), Some(Priority::Medium)) => {
                assert(b.priority == priority_of_token("medium"@));
            },
            (Some(p), Some(Priority::High)) => {
                assert(b.priority == priority_of_token("high"@));
            },
            (Some(p), Some(Priority::Critical)) => {
                assert(b.priority == priority_of_token("critical"@));
            },
            (None, None) => {},
            _ => {
                assert(false);
            },
        }
        assert(cand_of(b) == cand_of(a));
    }
    assert forall|j: int| 0 <= j < out.len() implies {
        &&& (#[trigger] out[j]).file@ == path
        &&& out[j].git_author is None
        &&& out[j].git_date is None
        &&& !(out[j].tag is Custom)
    } by {
        assert(item_decodes_row(out[j], path, rows[j]));
        assert(row_encodes_item(rows[j], items[j]));
        assert(!(items[j].tag is Custom));
        assert(is_fixed_tag_text(tag_text(items[j].tag)));
        assert(tag_of_text(rows[j].tag@) == tag_text(items[j].tag));
    }
}

} // verus!
