//! Core data model: tags, priorities, detected items, and scan aggregates.

use vstd::prelude::*;
use crate::strutil::{lower_chars, upper_chars, ascii_lower, ascii_upper, str_eq};

verus! {

/// Priority level attached to an annotation, parsed from its metadata list.
#[derive(Debug, Clone, PartialEq, Eq)]
pub enum Priority {
    Low,
    Medium,
    High,
    Critical,
}

/// The priority an alias token denotes, compared case-insensitively.
pub open spec fn priority_of_token(s: Seq<char>) -> Option<Priority> {
    let t = lower_chars(s);
    if t == "low"@ || t == "p:low"@ || t == "p3"@ {
        Some(Priority::Low)
    } else if t == "medium"@ || t == "med"@ || t == "p:medium"@ || t == "p:med"@ || t == "p2"@ {
        Some(Priority::Medium)
    } else if t == "high"@ || t == "p:high"@ || t == "p1"@ {
        Some(Priority::High)
    } else if t == "critical"@ || t == "crit"@ || t == "p:critical"@ || t == "p:crit"@
        || t == "p0"@ {
        Some(Priority::Critical)
    } else {
        None
    }
}

impl Priority {
    /// Recognises a priority alias such as `p:high`, `med` or `p0`,
    /// ignoring ASCII case.
    pub fn from_str_tag(s: &str) -> (r: Option<Priority>)
        ensures
            r == priority_of_token(s@),
    {
        let t = ascii_lower(s);
        let ts = t.as_str();
        if str_eq(ts, "low") || str_eq(ts, "p:low") || str_eq(ts, "p3") {
            Some(Priority::Low)
        } else if str_eq(ts, "medium") || str_eq(ts, "med") || str_eq(ts, "p:medium") || str_eq(
            ts,
            "p:med",
        ) || str_eq(ts, "p2") {
            Some(Priority::Medium)
        } else if str_eq(ts, "high") || str_eq(ts, "p:high") || str_eq(ts, "p1") {
            Some(Priority::High)
        } else if str_eq(ts, "critical") || str_eq(ts, "crit") || str_eq(ts, "p:critical")
            || str_eq(ts, "p:crit") || str_eq(ts, "p0") {
            Some(Priority::Critical)
        } else {
            None
        }
    }
}

/// An annotation keyword: one of the five fixed tags, or a custom word.
#[derive(Debug, Clone, PartialEq, Eq)]
pub enum TodoTag {
    Todo,
    Fixme,
    Hack,
    Bug,
    Xxx,
    Custom(String),
}

/// The text a tag displays as: the canonical upper-case word for the fixed
/// five, the stored text for a custom tag.
pub open spec fn tag_text(t: TodoTag) -> Seq<char> {
    match t {
        TodoTag::Todo => "TODO"@,
        TodoTag::Fixme => "FIXME"@,
        TodoTag::Hack => "HACK"@,
        TodoTag::Bug => "BUG"@,
        TodoTag::Xxx => "XXX"@,
        TodoTag::Custom(s) => s@,
    }
}

/// The tag a piece of text denotes: matched against the fixed vocabulary
/// ignoring ASCII case; any other text is kept verbatim, case as written.
pub open spec fn tag_of_text(s: Seq<char>) -> Seq<char> {
    if is_fixed_tag_text(upper_chars(s)) {
        upper_chars(s)
    } else {
        s
    }
}

pub open spec fn is_fixed_tag_text(u: Seq<char>) -> bool {
    u == "TODO"@ || u == "FIXME"@ || u == "HACK"@ || u == "BUG"@ || u == "XXX"@
}

impl TodoTag {
    /// Matches the text against the fixed vocabulary, ignoring ASCII case;
    /// anything else becomes a custom tag holding the text as written.
    pub fn from_str(s: &str) -> (r: TodoTag)
        ensures
            tag_text(r) == tag_of_text(s@),
            r is Custom <==> !is_fixed_tag_text(upper_chars(s@)),
    {
        let u = ascii_upper(s);
        let us = u.as_str();
        if str_eq(us, "TODO") {
            TodoTag::Todo
        } else if str_eq(us, "FIXME") {
            TodoTag::Fixme
        } else if str_eq(us, "HACK") {
            TodoTag::Hack
        } else if str_eq(us, "BUG") {
            TodoTag::Bug
        } else if str_eq(us, "XXX") {
            TodoTag::Xxx
        } else {
            TodoTag::Custom(String::from_str(s))
        }
    }

    /// The display text of the tag.
    pub fn as_str(&self) -> (r: &str)
        ensures
            r@ == tag_text(*self),
    {
        match self {
            TodoTag::Todo => "TODO",
            TodoTag::Fixme => "FIXME",
            TodoTag::Hack => "HACK",
            TodoTag::Bug => "BUG",
            TodoTag::Xxx => "XXX",
            TodoTag::Custom(s) => s.as_str(),
        }
    }
}

/// One detected annotation: tag, message, location, optional metadata, and
/// the raw source line it came from.
#[derive(Debug, Clone, PartialEq, Eq)]
pub struct TodoItem {
    pub tag: TodoTag,
    pub message: String,
    pub file: String,
    pub line: usize,
    pub column: usize,
    pub author: Option<String>,
    pub issue: Option<String>,
    pub priority: Option<Priority>,
    pub context_line: String,
    pub git_author: Option<String>,
    pub git_date: Option<String>,
}

impl TodoItem {
    /// An equal copy of the item.
    pub fn clone_item(&self) -> (r: TodoItem)
        ensures
            r == *self,
    {
        let tag = match &self.tag {
            TodoTag::Todo => TodoTag::Todo,
            TodoTag::Fixme => TodoTag::Fixme,
            TodoTag::Hack => TodoTag::Hack,
            TodoTag::Bug => TodoTag::Bug,
            TodoTag::Xxx => TodoTag::Xxx,
            TodoTag::Custom(s) => TodoTag::Custom(s.clone()),
        };
        let priority = match &self.priority {
            Some(Priority::Low) => Some(Priority::Low),
            Some(Priority::Medium) => Some(Priority::Medium),
            Some(Priority::High) => Some(Priority::High),
            Some(Priority::Critical) => Some(Priority::Critical),
            None => None,
        };
        TodoItem {
            tag,
            message: self.message.clone(),
            file: self.file.clone(),
            line: self.line,
            column: self.column,
            author: clone_opt_str(&self.author),
            issue: clone_opt_str(&self.issue),
            priority,
            context_line: self.context_line.clone(),
            git_author: clone_opt_str(&self.git_author),
            git_date: clone_opt_str(&self.git_date),
        }
    }
}

/// An equal copy of an optional string.
pub fn clone_opt_str(v: &Option<String>) -> (r: Option<String>)
    ensures
        r == *v,
{
    match v {
        Some(s) => Some(s.clone()),
        None => None,
    }
}

/// Aggregate counters for one scan. The per-tag histogram is an association
/// list with pairwise-distinct keys.
#[derive(Debug, Clone)]
pub struct ScanStats {
    pub files_scanned: usize,
    pub files_with_todos: usize,
    pub total_todos: usize,
    pub by_tag: Vec<(String, usize)>,
}

/// The count the histogram records for a key, zero when absent.
pub open spec fn hist_count(m: Seq<(String, usize)>, k: Seq<char>) -> int
    decreases m.len(),
{
    if m.len() == 0 {
        0
    } else if m[0].0@ == k {
        m[0].1 as int
    } else {
        hist_count(m.drop_first(), k)
    }
}

/// Histogram keys are pairwise distinct.
pub open spec fn hist_wf(m: Seq<(String, usize)>) -> bool {
    forall|i: int, j: int| 0 <= i < j < m.len() ==> m[i].0@ != m[j].0@
}

impl ScanStats {
    /// A fresh aggregate with every counter at zero.
    pub fn new() -> (r: ScanStats)
        ensures
            r.files_scanned == 0,
            r.files_with_todos == 0,
            r.total_todos == 0,
            r.by_tag@.len() == 0,
            hist_wf(r.by_tag@),
    {
        ScanStats { files_scanned: 0, files_with_todos: 0, total_todos: 0, by_tag: Vec::new() }
    }

    /// Folds one item into the aggregate: bumps the total and the count
    /// recorded for the item's tag, leaving every other count unchanged.
    pub fn add_item(&mut self, item: &TodoItem)
        requires
            hist_wf(old(self).by_tag@),
            old(self).total_todos < usize::MAX,
            hist_count(old(self).by_tag@, tag_text(item.tag)) < usize::MAX,
        ensures
            hist_wf(final(self).by_tag@),
            final(self).total_todos == old(self).total_todos + 1,
            final(self).files_scanned == old(self).files_scanned,
            final(self).files_with_todos == old(self).files_with_todos,
            hist_count(final(self).by_tag@, tag_text(item.tag)) == hist_count(
                old(self).by_tag@,
                tag_text(item.tag),
            ) + 1,
            forall|k: Seq<char>|
                k != tag_text(item.tag) ==> hist_count(final(self).by_tag@, k) == hist_count(
                    old(self).by_tag@,
                    k,
                ),
    {
        self.total_todos = self.total_todos + 1;
        let key = item.tag.as_str();
        let ghost m0 = self.by_tag@;
        let n = self.by_tag.len();
        let mut i: usize = 0;
        while i < n
            invariant
                n == self.by_tag@.len(),
                i <= n,
                self.by_tag@ == m0,
                m0 == old(self).by_tag@,
                self.total_todos == old(self).total_todos + 1,
                self.files_scanned == old(self).files_scanned,
                self.files_with_todos == old(self).files_with_todos,
                old(self).total_todos < usize::MAX,
                hist_count(m0, tag_text(item.tag)) < usize::MAX,
                hist_wf(m0),
                key@ == tag_text(item.tag),
                forall|j: int| 0 <= j < i ==> m0[j].0@ != key@,
            decreases n - i,
        {
            if str_eq(self.by_tag[i].0.as_str(), key) {
                let old_count = self.by_tag[i].1;
                proof {
                    assert(m0[i as int].0@ == key@);
                    lemma_hist_count_at(m0, i as int);
                    assert(old_count < usize::MAX);
                }
                let new_name = self.by_tag[i].0.clone();
                self.by_tag.set(i, (new_name, old_count + 1));
                proof {
                    lemma_hist_count_update(m0, self.by_tag@, i as int);
                }
                return;
            }
            i += 1;
        }
        let mut name = String::new();
        name.append(key);
        self.by_tag.push((name, 1));
        proof {
            lemma_hist_count_absent(m0, key@);
            lemma_hist_count_push(m0, self.by_tag@[n as int], key@);
            assert(self.by_tag@.drop_last() =~= m0);
        }
    }

    /// The count recorded for a tag name, zero when absent.
    pub fn by_tag_count(&self, tag: &str) -> (r: usize)
        ensures
            r == hist_count(self.by_tag@, tag@),
    {
        let n = self.by_tag.len();
        let mut i: usize = 0;
        while i < n
            invariant
                n == self.by_tag@.len(),
                i <= n,
                forall|j: int| 0 <= j < i ==> self.by_tag@[j].0@ != tag@,
            decreases n - i,
        {
            if str_eq(self.by_tag[i].0.as_str(), tag) {
                proof {
                    lemma_hist_count_at(self.by_tag@, i as int);
                }
                return self.by_tag[i].1;
            }
            i += 1;
        }
        proof {
            lemma_hist_count_absent(self.by_tag@, tag@);
        }
        0
    }
}

/// When the first hit for a key is at index `i`, the histogram count is the
/// count stored there.
pub proof fn lemma_hist_count_at(m: Seq<(String, usize)>, i: int)
    requires
        0 <= i < m.len(),
        forall|j: int| 0 <= j < i ==> m[j].0@ != m[i].0@,
    ensures
        hist_count(m, m[i].0@) == m[i].1 as int,
    decreases i,
{
    if i > 0 {
        lemma_hist_count_at(m.drop_first(), i - 1);
    }
}

/// A key that appears nowhere counts zero.
pub proof fn lemma_hist_count_absent(m: Seq<(String, usize)>, k: Seq<char>)
    requires
        forall|j: int| 0 <= j < m.len() ==> m[j].0@ != k,
    ensures
        hist_count(m, k) == 0,
    decreases m.len(),
{
    if m.len() > 0 {
        lemma_hist_count_absent(m.drop_first(), k);
    }
}

/// Replacing the entry at index `i` with one of the same key changes only
/// that key's count.
pub proof fn lemma_hist_count_update(m0: Seq<(String, usize)>, m1: Seq<(String, usize)>, i: int)
    requires
        0 <= i < m0.len(),
        m1.len() == m0.len(),
        forall|j: int| 0 <= j < m0.len() && j != i ==> m1[j] == m0[j],
        m1[i].0@ == m0[i].0@,
        forall|j: int| 0 <= j < i ==> m0[j].0@ != m0[i].0@,
    ensures
        hist_count(m1, m0[i].0@) == m1[i].1 as int,
        forall|k: Seq<char>| k != m0[i].0@ ==> hist_count(m1, k) == hist_count(m0, k),
        hist_wf(m0) ==> hist_wf(m1),
    decreases i,
{
    if i > 0 {
        lemma_hist_count_update(m0.drop_first(), m1.drop_first(), i - 1);
        assert(m1.drop_first() =~= m1.subrange(1, m1.len() as int));
        assert(m1[0] == m0[0]);
        assert forall|k: Seq<char>| k != m0[i].0@ implies hist_count(m1, k) == hist_count(
            m0,
            k,
        ) by {
            assert(hist_count(m1.drop_first(), k) == hist_count(m0.drop_first(), k));
        }
    } else {
        assert forall|k: Seq<char>| k != m0[i].0@ implies hist_count(m1, k) == hist_count(
            m0,
            k,
        ) by {
            assert(m1.drop_first() =~= m0.drop_first());
        }
    }
}

/// Appending an entry with a fresh key gives that key the appended count and
/// leaves every other count unchanged.
pub proof fn lemma_hist_count_push(m0: Seq<(String, usize)>, e: (String, usize), k: Seq<char>)
    requires
        e.0@ == k,
        forall|j: int| 0 <= j < m0.len() ==> m0[j].0@ != k,
    ensures
        hist_count(m0.push(e), k) == e.1 as int,
        forall|k2: Seq<char>| k2 != k ==> hist_count(m0.push(e), k2) == hist_count(m0, k2),
        hist_wf(m0) ==> hist_wf(m0.push(e)),
    decreases m0.len(),
{
    if m0.len() > 0 {
        lemma_hist_count_push(m0.drop_first(), e, k);
        assert(m0.push(e).drop_first() =~= m0.drop_first().push(e));
        assert(m0.push(e)[0] == m0[0]);
        assert forall|k2: Seq<char>| k2 != k implies hist_count(m0.push(e), k2) == hist_count(
            m0,
            k2,
        ) by {
            assert(hist_count(m0.push(e).drop_first(), k2) == hist_count(m0.drop_first(), k2));
        }
    } else {
        assert(m0.push(e).drop_first() =~= Seq::<(String, usize)>::empty());
        assert(m0.push(e)[0] == e);
        assert forall|k2: Seq<char>| k2 != k implies hist_count(m0.push(e), k2) == hist_count(
            m0,
            k2,
        ) by {
            assert(m0.push(e).drop_first() =~= Seq::<(String, usize)>::empty());
            assert(hist_count(m0.push(e).drop_first(), k2) == 0);
            assert(hist_count(m0.push(e), k2) == 0);
            assert(hist_count(m0, k2) == 0);
        }
    }
    if hist_wf(m0) {
        assert forall|i: int, j: int| 0 <= i < j < m0.push(e).len() implies m0.push(e)[i].0@
            != m0.push(e)[j].0@ by {
            if j < m0.len() {
                assert(m0.push(e)[i] == m0[i]);
                assert(m0.push(e)[j] == m0[j]);
            } else {
                assert(m0.push(e)[i] == m0[i]);
                assert(m0.push(e)[j] == e);
            }
        }
    }
}

/// Timing and provenance for one scan run.
#[derive(Debug, Clone)]
pub struct ScanMetadata {
    pub scan_duration_ms: u64,
    pub root_path: String,
    pub timestamp: String,
}

/// The value a whole scan returns: the sorted items, the derived statistics
/// and the run metadata.
#[derive(Debug, Clone)]
pub struct ScanResult {
    pub items: Vec<TodoItem>,
    pub stats: ScanStats,
    pub metadata: ScanMetadata,
}

} // verus!
