//! Item filtering: criteria combined with AND over tags, authors, a file
//! glob pattern, a priority and an issue-presence flag, plus the simple
//! `*`-wildcard glob matcher.

use vstd::prelude::*;
use crate::model::{Priority, TodoItem, tag_text};
use crate::strutil::{upper_chars, lower_chars, ascii_upper, ascii_lower, str_eq, find_char_from,
    find_sub_from, split_char_seq, views_of, find_char, find_sub, split_on_char, push_char,
    lemma_filter_push, lemma_find_sub_from_props};

verus! {

/// The criteria a caller may combine; an unset field matches everything.
#[derive(Debug)]
pub struct FilterCriteria {
    pub tags: Option<Vec<String>>,
    pub authors: Option<Vec<String>>,
    pub file_pattern: Option<String>,
    pub priority: Option<Priority>,
    pub has_issue: Option<bool>,
}

/// Path separators normalised to forward slashes.
pub open spec fn norm_slashes(s: Seq<char>) -> Seq<char> {
    s.map_values(|c: char| if c == '\\' { '/' } else { c })
}

/// The greedy wildcard walk: each non-empty literal part must occur, in
/// order, at or after the previous part's end; the part before the first
/// `*` must sit at the very start.
pub open spec fn glob_loop(parts: Seq<Seq<char>>, text: Seq<char>, pos: int, i: int) -> bool
    decreases parts.len() - i,
{
    if i < 0 || i >= parts.len() {
        true
    } else if parts[i].len() == 0 {
        glob_loop(parts, text, pos, i + 1)
    } else {
        match find_sub_from(text, parts[i], pos) {
            None => false,
            Some(f) => if i == 0 && f != 0 {
                false
            } else {
                glob_loop(parts, text, f + parts[i].len() as int, i + 1)
            },
        }
    }
}

/// The glob matcher's meaning: with a `*` in the pattern, the greedy walk
/// over the parts between stars; without one, plain substring containment.
/// Backslashes count as forward slashes on both sides.
pub open spec fn glob_match_spec(pattern: Seq<char>, text: Seq<char>) -> bool {
    let p = norm_slashes(pattern);
    let t = norm_slashes(text);
    if find_char_from(p, '*', 0) is Some {
        glob_loop(split_char_seq(p, '*'), t, 0, 0)
    } else {
        find_sub_from(t, p, 0) is Some
    }
}

/// Replaces every backslash with a forward slash.
pub fn normalize_slashes(s: &str) -> (r: String)
    ensures
        r@ == norm_slashes(s@),
{
    let slen = s.unicode_len();
    let mut out = String::new();
    let mut i: usize = 0;
    while i < slen
        invariant
            slen == s@.len(),
            i <= slen,
            out@ == norm_slashes(s@.subrange(0, i as int)),
        decreases slen - i,
    {
        let c = s.get_char(i);
        let d = if c == '\\' {
            '/'
        } else {
            c
        };
        push_char(&mut out, d);
        i += 1;
        proof {
            assert(s@.subrange(0, i as int) =~= s@.subrange(0, i - 1).push(s@[i - 1]));
            assert(out@ =~= norm_slashes(s@.subrange(0, i as int)));
        }
    }
    proof {
        assert(s@.subrange(0, slen as int) =~= s@);
    }
    out
}

/// A simple glob matcher: `*` matches any run of characters; everything
/// else is literal. Path separators are normalised before matching, and a
/// pattern without `*` matches any text that contains it.
pub fn glob_match(pattern: &str, text: &str) -> (r: bool)
    ensures
        r == glob_match_spec(pattern@, text@),
{
    let p = normalize_slashes(pattern);
    let t = normalize_slashes(text);
    let plen = p.as_str().unicode_len();
    let tlen = t.as_str().unicode_len();
    let star = find_char(p.as_str(), plen, '*', 0);
    match star {
        Some(_) => {
            let parts = split_on_char(p.as_str(), '*');
            let ghost partsv = split_char_seq(p@, '*');
            let n = parts.len();
            let mut pos: usize = 0;
            let mut i: usize = 0;
            while i < n
                invariant
                    n == parts@.len(),
                    partsv == views_of(parts@),
                    i <= n,
                    pos <= tlen,
                    tlen == t@.len(),
                    glob_loop(partsv, t@, 0, 0) == glob_loop(partsv, t@, pos as int, i as int),
                decreases n - i,
            {
                let part = &parts[i];
                let part_len = part.as_str().unicode_len();
                proof {
                    assert(parts@[i as int]@ == partsv[i as int]);
                }
                if part_len == 0 {
                    proof {
                        assert(partsv[i as int].len() == 0);
                        assert(glob_loop(partsv, t@, pos as int, i as int) == glob_loop(
                            partsv,
                            t@,
                            pos as int,
                            i + 1,
                        ));
                    }
                    i += 1;
                    continue;
                }
                let ghost old_pos = pos as int;
                match find_sub(t.as_str(), tlen, part.as_str(), pos) {
                    Some(f) => {
                        if i == 0 && f != 0 {
                            proof {
                                assert(!glob_loop(partsv, t@, old_pos, i as int));
                            }
                            return false;
                        }
                        proof {
                            lemma_find_sub_from_props(t@, partsv[i as int], old_pos);
                            assert(find_sub_from(t@, partsv[i as int], old_pos) == Some(f as int));
                            assert(glob_loop(partsv, t@, old_pos, i as int) == glob_loop(
                                partsv,
                                t@,
                                f + partsv[i as int].len() as int,
                                i + 1,
                            ));
                        }
                        pos = f + part_len;
                        i += 1;
                    },
                    None => {
                        proof {
                            assert(!glob_loop(partsv, t@, old_pos, i as int));
                        }
                        return false;
                    },
                }
            }
            true
        },
        None => {
            match find_sub(t.as_str(), tlen, p.as_str(), 0) {
                Some(_) => true,
                None => false,
            }
        },
    }
}

fn priority_eq(a: &Priority, b: &Priority) -> (r: bool)
    ensures
        r == (a == b),
{
    match (a, b) {
        (Priority::Low, Priority::Low) => true,
        (Priority::Medium, Priority::Medium) => true,
        (Priority::High, Priority::High) => true,
        (Priority::Critical, Priority::Critical) => true,
        _ => false,
    }
}

/// Whether an item passes every set criterion: its tag is among the wanted
/// tags (ignoring ASCII case), its author among the wanted authors
/// (ignoring ASCII case), its path matches the glob pattern, its priority
/// equals the wanted one, and its issue presence equals the wanted flag.
pub open spec fn matches_spec(c: FilterCriteria, item: TodoItem) -> bool {
    &&& match c.tags {
        Some(tags) => exists|k: int|
            0 <= k < tags@.len() && upper_chars((#[trigger] tags@[k])@) == upper_chars(
                tag_text(item.tag),
            ),
        None => true,
    }
    &&& match c.authors {
        Some(authors) => match item.author {
            Some(a) => exists|k: int|
                0 <= k < authors@.len() && lower_chars((#[trigger] authors@[k])@) == lower_chars(
                    a@,
                ),
            None => false,
        },
        None => true,
    }
    &&& match c.file_pattern {
        Some(p) => glob_match_spec(p@, item.file@),
        None => true,
    }
    &&& match c.priority {
        Some(p) => item.priority == Some(p),
        None => true,
    }
    &&& match c.has_issue {
        Some(h) => h == (item.issue is Some),
        None => true,
    }
}

impl Default for FilterCriteria {
    /// Criteria with nothing set.
    fn default() -> (r: FilterCriteria)
        ensures
            r.tags is None,
            r.authors is None,
            r.file_pattern is None,
            r.priority is None,
            r.has_issue is None,
    {
        FilterCriteria {
            tags: None,
            authors: None,
            file_pattern: None,
            priority: None,
            has_issue: None,
        }
    }
}

impl FilterCriteria {
    /// Criteria with nothing set: everything matches.
    pub fn new() -> (r: FilterCriteria)
        ensures
            r.tags is None,
            r.authors is None,
            r.file_pattern is None,
            r.priority is None,
            r.has_issue is None,
    {
        FilterCriteria {
            tags: None,
            authors: None,
            file_pattern: None,
            priority: None,
            has_issue: None,
        }
    }

    /// No criterion is set.
    pub fn is_empty(&self) -> (r: bool)
        ensures
            r == (self.tags is None && self.authors is None && self.file_pattern is None
                && self.priority is None && self.has_issue is None),
    {
        self.tags.is_none() && self.authors.is_none() && self.file_pattern.is_none()
            && self.priority.is_none() && self.has_issue.is_none()
    }

    /// Whether one item passes all set criteria.
    pub fn matches(&self, item: &TodoItem) -> (r: bool)
        ensures
            r == matches_spec(*self, *item),
    {
        match &self.tags {
            Some(tags) => {
                let tag_str = ascii_upper(item.tag.as_str());
                let n = tags.len();
                let mut k: usize = 0;
                let mut found = false;
                while k < n
                    invariant
                        n == tags@.len(),
                        k <= n,
                        tag_str@ == upper_chars(tag_text(item.tag)),
                        !found ==> forall|j: int|
                            0 <= j < k ==> upper_chars((#[trigger] tags@[j])@) != upper_chars(
                                tag_text(item.tag),
                            ),
                        found ==> exists|j: int|
                            0 <= j < n && upper_chars((#[trigger] tags@[j])@) == upper_chars(
                                tag_text(item.tag),
                            ),
                    decreases n - k,
                {
                    let u = ascii_upper(tags[k].as_str());
                    if str_eq(u.as_str(), tag_str.as_str()) {
                        found = true;
                        break;
                    }
                    k += 1;
                }
                if !found {
                    return false;
                }
            },
            None => {},
        }
        match &self.authors {
            Some(authors) => {
                match &item.author {
                    Some(author) => {
                        let author_l = ascii_lower(author.as_str());
                        let n = authors.len();
                        let mut k: usize = 0;
                        let mut found = false;
                        while k < n
                            invariant
                                n == authors@.len(),
                                k <= n,
                                author_l@ == lower_chars(author@),
                                item.author == Some(*author),
                                !found ==> forall|j: int|
                                    0 <= j < k ==> lower_chars((#[trigger] authors@[j])@)
                                        != lower_chars(author@),
                                found ==> exists|j: int|
                                    0 <= j < n && lower_chars((#[trigger] authors@[j])@)
                                        == lower_chars(author@),
                            decreases n - k,
                        {
                            let u = ascii_lower(authors[k].as_str());
                            if str_eq(u.as_str(), author_l.as_str()) {
                                found = true;
                                break;
                            }
                            k += 1;
                        }
                        if !found {
                            return false;
                        }
                    },
                    None => {
                        return false;
                    },
                }
            },
            None => {},
        }
        match &self.file_pattern {
            Some(pattern) => {
                if !glob_match(pattern.as_str(), item.file.as_str()) {
                    return false;
                }
            },
            None => {},
        }
        match &self.priority {
            Some(priority) => {
                match &item.priority {
                    Some(p) => {
                        if !priority_eq(p, priority) {
                            return false;
                        }
                    },
                    None => {
                        return false;
                    },
                }
            },
            None => {},
        }
        match self.has_issue {
            Some(has_issue) => {
                if has_issue != item.issue.is_some() {
                    return false;
                }
            },
            None => {},
        }
        true
    }

    /// The items that pass all set criteria, in order.
    pub fn apply(&self, items: &Vec<TodoItem>) -> (r: Vec<TodoItem>)
        ensures
            r@ == items@.filter(|it: TodoItem| matches_spec(*self, it)),
    {
        let ghost pred = |it: TodoItem| matches_spec(*self, it);
        let n = items.len();
        let mut out: Vec<TodoItem> = Vec::new();
        let mut i: usize = 0;
        proof {
            reveal(Seq::filter);
            assert(items@.subrange(0, 0) =~= Seq::<TodoItem>::empty());
            assert(items@.subrange(0, 0).filter(pred) =~= Seq::<TodoItem>::empty());
        }
        while i < n
            invariant
                n == items@.len(),
                i <= n,
                out@ == items@.subrange(0, i as int).filter(pred),
            decreases n - i,
        {
            let ghost pre = items@.subrange(0, i as int);
            proof {
                assert(items@.subrange(0, i + 1) =~= pre.push(items@[i as int]));
                lemma_filter_push(pre, pred, items@[i as int]);
            }
            if self.matches(&items[i]) {
                out.push(items[i].clone_item());
            }
            i += 1;
        }
        proof {
            assert(items@.subrange(0, n as int) =~= items@);
        }
        out
    }
}

} // verus!
