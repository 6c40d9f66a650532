//! Plain text output: items grouped by file with aligned columns, and an
//! optional summary block with a per-tag breakdown. Terminal colouring is
//! presentation the caller may add around this text.

use vstd::prelude::*;
use crate::error::TodoError;
use crate::model::{ScanResult, ScanStats, TodoItem, tag_text, hist_count};
use crate::strutil::{dec_str, usize_to_string, u64_to_string, joined, join_strings, views_of,
    push_char, str_eq};
use crate::output::{OutputFormatter, sorted_paths, items_of_path, collect_sorted_paths,
    collect_items_of_path, insert_path, find_insert_pos};
use crate::output::markdown::{meta_text, format_metadata};
use crate::scanner::lemma_lex_lt_irrefl;

verus! {

/// The plain text renderer; the summary block is optional.
pub struct TextFormatter {
    pub show_summary: bool,
}

/// `s` padded with spaces on the left to a minimum width.
pub open spec fn pad_left(s: Seq<char>, w: int) -> Seq<char> {
    if s.len() >= w {
        s
    } else {
        Seq::new((w - s.len()) as nat, |i: int| ' ') + s
    }
}

/// `s` padded with spaces on the right to a minimum width.
pub open spec fn pad_right(s: Seq<char>, w: int) -> Seq<char> {
    if s.len() >= w {
        s
    } else {
        s + Seq::new((w - s.len()) as nat, |i: int| ' ')
    }
}

fn spaces(n: usize) -> (r: String)
    ensures
        r@ == Seq::new(n as nat, |i: int| ' '),
{
    let mut out = String::new();
    let mut i: usize = 0;
    proof {
        assert(out@ =~= Seq::new(0, |j: int| ' '));
    }
    while i < n
        invariant
            i <= n,
            out@ == Seq::new(i as nat, |j: int| ' '),
        decreases n - i,
    {
        push_char(&mut out, ' ');
        i += 1;
        proof {
            assert(out@ =~= Seq::new(i as nat, |j: int| ' '));
        }
    }
    out
}

fn pad_left_exec(s: &str, w: usize) -> (r: String)
    ensures
        r@ == pad_left(s@, w as int),
{
    let slen = s.unicode_len();
    if slen >= w {
        String::from_str(s)
    } else {
        let mut out = spaces(w - slen);
        out.append(s);
        out
    }
}

fn pad_right_exec(s: &str, w: usize) -> (r: String)
    ensures
        r@ == pad_right(s@, w as int),
{
    let slen = s.unicode_len();
    if slen >= w {
        String::from_str(s)
    } else {
        let mut out = String::from_str(s);
        out.append(spaces(w - slen).as_str());
        out
    }
}

/// One listing line for one item: the right-aligned line label, the
/// left-aligned tag, the message, and the metadata when there is any.
pub open spec fn text_item(it: TodoItem) -> Seq<char> {
    "  "@ + pad_left("L"@ + dec_str(it.line as int), 5) + "  "@ + pad_right(tag_text(it.tag), 6)
    + " "@ + it.message@ + (if meta_text(it).len() == 0 {
        Seq::<char>::empty()
    } else {
        " "@ + meta_text(it)
    }) + "\n"@
}

pub open spec fn text_items(items: Seq<TodoItem>, i: int) -> Seq<char>
    decreases items.len() - i,
{
    if i < 0 || i >= items.len() {
        Seq::empty()
    } else {
        text_item(items[i]) + text_items(items, i + 1)
    }
}

/// One file group: a blank separator before every group but the first,
/// the path, and the file's items.
pub open spec fn text_group(items: Seq<TodoItem>, p: Seq<char>, first: bool) -> Seq<char> {
    (if first {
        Seq::<char>::empty()
    } else {
        "\n"@
    }) + p + "\n"@ + text_items(items_of_path(items, p), 0)
}

pub open spec fn text_groups(paths: Seq<Seq<char>>, items: Seq<TodoItem>, gi: int) -> Seq<char>
    decreases paths.len() - gi,
{
    if gi < 0 || gi >= paths.len() {
        Seq::empty()
    } else {
        text_group(items, paths[gi], gi == 0) + text_groups(paths, items, gi + 1)
    }
}

/// The separator line above the summary.
pub open spec fn summary_rule() -> Seq<char> {
    "\u{2500}\u{2500} Summary "@ + "\u{2500}\u{2500}\u{2500}\u{2500}\u{2500}\u{2500}\u{2500}\u{2500}\u{2500}\u{2500}\u{2500}\u{2500}\u{2500}\u{2500}\u{2500}\u{2500}\u{2500}\u{2500}\u{2500}\u{2500}\u{2500}\u{2500}\u{2500}\u{2500}\u{2500}\u{2500}\u{2500}\u{2500}\u{2500}\u{2500}"@
}

/// Builds the separator line above the summary.
pub fn format_summary_rule() -> (r: String)
    ensures
        r@ == summary_rule(),
{
    let mut out = String::from_str("\u{2500}\u{2500} Summary ");
    out.append(
        "\u{2500}\u{2500}\u{2500}\u{2500}\u{2500}\u{2500}\u{2500}\u{2500}\u{2500}\u{2500}\u{2500}\u{2500}\u{2500}\u{2500}\u{2500}\u{2500}\u{2500}\u{2500}\u{2500}\u{2500}\u{2500}\u{2500}\u{2500}\u{2500}\u{2500}\u{2500}\u{2500}\u{2500}\u{2500}\u{2500}",
    );
    out
}

pub open spec fn is_known_tag_name(k: Seq<char>) -> bool {
    k == "TODO"@ || k == "FIXME"@ || k == "HACK"@ || k == "BUG"@ || k == "XXX"@
}

/// One `NAME: count` fragment, present when the count is positive.
pub open spec fn known_part(m: Seq<(String, usize)>, name: Seq<char>) -> Seq<Seq<char>> {
    if hist_count(m, name) > 0 {
        seq![name + ": "@ + dec_str(hist_count(m, name))]
    } else {
        Seq::empty()
    }
}

/// The fragments of the five fixed tags, in their display order.
pub open spec fn known_parts(m: Seq<(String, usize)>) -> Seq<Seq<char>> {
    known_part(m, "TODO"@) + known_part(m, "FIXME"@) + known_part(m, "HACK"@) + known_part(
        m,
        "BUG"@,
    ) + known_part(m, "XXX"@)
}

/// The custom tag names with positive counts, in ascending order.
pub open spec fn custom_keys(m: Seq<(String, usize)>, i: int, acc: Seq<Seq<char>>) -> Seq<
    Seq<char>,
>
    decreases m.len() - i,
{
    if i < 0 || i >= m.len() {
        acc
    } else if !is_known_tag_name(m[i].0@) && m[i].1 > 0 {
        custom_keys(m, i + 1, insert_path(acc, m[i].0@))
    } else {
        custom_keys(m, i + 1, acc)
    }
}

/// The fragments of the custom tags, keys ascending.
pub open spec fn custom_parts(m: Seq<(String, usize)>, keys: Seq<Seq<char>>, i: int) -> Seq<
    Seq<char>,
>
    decreases keys.len() - i,
{
    if i < 0 || i >= keys.len() {
        Seq::empty()
    } else {
        seq![keys[i] + ": "@ + dec_str(hist_count(m, keys[i]))] + custom_parts(m, keys, i + 1)
    }
}

/// The per-tag breakdown: the fixed five in display order, then custom tags
/// ascending, each as `NAME: count`, joined with double spaces.
pub open spec fn breakdown_text(m: Seq<(String, usize)>) -> Seq<char> {
    joined(
        known_parts(m) + custom_parts(m, custom_keys(m, 0, Seq::empty()), 0),
        "  "@,
    )
}

fn push_known_part(parts: &mut Vec<String>, stats: &ScanStats, name: &str)
    ensures
        views_of(final(parts)@) == views_of(old(parts)@) + known_part(stats.by_tag@, name@),
{
    let c = stats.by_tag_count(name);
    if c > 0 {
        let mut part = String::from_str(name);
        part.append(": ");
        part.append(usize_to_string(c).as_str());
        let ghost prev = parts@;
        parts.push(part);
        proof {
            assert(views_of(parts@) =~= views_of(prev).push(name@ + ": "@ + dec_str(
                hist_count(stats.by_tag@, name@),
            )));
            assert(views_of(parts@) =~= views_of(prev) + known_part(stats.by_tag@, name@));
        }
    } else {
        proof {
            assert(views_of(parts@) =~= views_of(parts@) + known_part(stats.by_tag@, name@));
        }
    }
}

/// Builds the per-tag breakdown line; empty when every count is zero.
pub fn format_tag_breakdown(stats: &ScanStats) -> (r: String)
    ensures
        r@ == breakdown_text(stats.by_tag@),
{
    let ghost m = stats.by_tag@;
    let mut parts: Vec<String> = Vec::new();
    proof {
        assert(views_of(parts@) =~= Seq::<Seq<char>>::empty());
    }
    push_known_part(&mut parts, stats, "TODO");
    push_known_part(&mut parts, stats, "FIXME");
    push_known_part(&mut parts, stats, "HACK");
    push_known_part(&mut parts, stats, "BUG");
    push_known_part(&mut parts, stats, "XXX");
    proof {
        assert(views_of(parts@) =~= known_parts(m));
    }
    // gather the custom keys in ascending order
    let n = stats.by_tag.len();
    let mut keys: Vec<String> = Vec::new();
    let mut i: usize = 0;
    proof {
        assert(views_of(keys@) =~= Seq::<Seq<char>>::empty());
    }
    while i < n
        invariant
            n == stats.by_tag@.len(),
            m == stats.by_tag@,
            i <= n,
            custom_keys(m, 0, Seq::empty()) == custom_keys(m, i as int, views_of(keys@)),
        decreases n - i,
    {
        let name = &stats.by_tag[i].0;
        let count = stats.by_tag[i].1;
        let known = str_eq(name.as_str(), "TODO") || str_eq(name.as_str(), "FIXME") || str_eq(
            name.as_str(),
            "HACK",
        ) || str_eq(name.as_str(), "BUG") || str_eq(name.as_str(), "XXX");
        if !known && count > 0 {
            let (k, dup) = find_insert_pos(&keys, name.as_str());
            let ghost prev = views_of(keys@);
            proof {
                assert forall|j: int| 0 <= j < k implies crate::scanner::lex_lt(
                    #[trigger] prev[j],
                    name@,
                ) by {
                    assert(prev[j] == keys@[j]@);
                }
            }
            if dup {
                proof {
                    assert(prev[k as int] == keys@[k as int]@);
                    lemma_lex_lt_irrefl(name@);
                    crate::output::lemma_insert_path_at_pub(prev, name@, k as int);
                    assert(views_of(keys@) =~= insert_path(prev, name@));
                }
            } else {
                proof {
                    if k < keys.len() {
                        assert(prev[k as int] == keys@[k as int]@);
                    }
                    crate::output::lemma_insert_path_at_pub(prev, name@, k as int);
                }
                keys.insert(k, name.clone());
                proof {
                    assert(views_of(keys@) =~= prev.insert(k as int, name@));
                    assert(views_of(keys@) =~= insert_path(prev, name@));
                }
            }
        }
        i += 1;
    }
    let ghost keysv = custom_keys(m, 0, Seq::empty());
    proof {
        assert(views_of(keys@) == keysv);
    }
    // render each custom key with its count
    let kn = keys.len();
    let mut ci: usize = 0;
    while ci < kn
        invariant
            kn == keys@.len(),
            m == stats.by_tag@,
            keysv == views_of(keys@),
            ci <= kn,
            views_of(parts@) =~= known_parts(m) + custom_parts(m, keysv, 0).subrange(
                0,
                views_of(parts@).len() - known_parts(m).len(),
            ),
            custom_parts(m, keysv, 0) =~= views_of(parts@).subrange(
                known_parts(m).len() as int,
                views_of(parts@).len() as int,
            ) + custom_parts(m, keysv, ci as int),
        decreases kn - ci,
    {
        let mut part = keys[ci].clone();
        part.append(": ");
        part.append(usize_to_string(stats.by_tag_count(keys[ci].as_str())).as_str());
        let ghost prev = views_of(parts@);
        parts.push(part);
        proof {
            assert(keys@[ci as int]@ == keysv[ci as int]);
            assert(views_of(parts@) =~= prev.push(keysv[ci as int] + ": "@ + dec_str(
                hist_count(m, keysv[ci as int]),
            )));
            assert(custom_parts(m, keysv, ci as int) == seq![
                keysv[ci as int] + ": "@ + dec_str(hist_count(m, keysv[ci as int])),
            ] + custom_parts(m, keysv, ci + 1));
            assert(views_of(parts@) =~= known_parts(m) + custom_parts(m, keysv, 0).subrange(
                0,
                views_of(parts@).len() - known_parts(m).len(),
            ));
            assert(custom_parts(m, keysv, 0) =~= views_of(parts@).subrange(
                known_parts(m).len() as int,
                views_of(parts@).len() as int,
            ) + custom_parts(m, keysv, ci + 1));
        }
        ci += 1;
    }
    proof {
        assert(views_of(parts@) =~= known_parts(m) + custom_parts(m, keysv, 0));
    }
    join_strings(&parts, "  ")
}

/// The optional summary block.
pub open spec fn text_summary(result: ScanResult) -> Seq<char> {
    "\n"@ + summary_rule() + "\n"@ + dec_str(result.stats.total_todos as int) + " TODOs in "@
    + dec_str(result.stats.files_with_todos as int) + " files (scanned "@ + dec_str(
        result.stats.files_scanned as int,
    ) + " files in "@ + dec_str(result.metadata.scan_duration_ms as int) + "ms)\n"@ + (
    if breakdown_text(result.stats.by_tag@).len() == 0 {
        Seq::<char>::empty()
    } else {
        "  "@ + breakdown_text(result.stats.by_tag@) + "\n"@
    })
}

/// The whole listing.
pub open spec fn text_doc(result: ScanResult, show_summary: bool) -> Seq<char> {
    text_groups(sorted_paths(result.items@), result.items@, 0) + (if show_summary {
        text_summary(result)
    } else {
        Seq::<char>::empty()
    })
}

/// Appends one item's listing line.
fn append_text_item(out: &mut String, item: &TodoItem)
    ensures
        final(out)@ == old(out)@ + text_item(*item),
{
    let mut label = String::from_str("L");
    label.append(usize_to_string(item.line).as_str());
    out.append("  ");
    out.append(pad_left_exec(label.as_str(), 5).as_str());
    out.append("  ");
    out.append(pad_right_exec(item.tag.as_str(), 6).as_str());
    out.append(" ");
    out.append(item.message.as_str());
    let meta = format_metadata(item);
    if meta.as_str().unicode_len() > 0 {
        out.append(" ");
        out.append(meta.as_str());
    }
    out.append("\n");
    proof {
        assert(final(out)@ =~= old(out)@ + text_item(*item));
    }
}

/// Appends the summary block.
#[verifier::rlimit(100)]
fn append_text_summary(out: &mut String, result: &ScanResult)
    ensures
        final(out)@ == old(out)@ + text_summary(*result),
{
    out.append("\n");
    out.append(format_summary_rule().as_str());
    out.append("\n");
    out.append(usize_to_string(result.stats.total_todos).as_str());
    out.append(" TODOs in ");
    out.append(usize_to_string(result.stats.files_with_todos).as_str());
    out.append(" files (scanned ");
    out.append(usize_to_string(result.stats.files_scanned).as_str());
    out.append(" files in ");
    out.append(u64_to_string(result.metadata.scan_duration_ms).as_str());
    out.append("ms)\n");
    let breakdown = format_tag_breakdown(&result.stats);
    if breakdown.as_str().unicode_len() > 0 {
        out.append("  ");
        out.append(breakdown.as_str());
        out.append("\n");
    }
    proof {
        assert(final(out)@ =~= old(out)@ + text_summary(*result));
    }
}

impl TextFormatter {
    /// Renders the listing: one group per file in path order with that
    /// file's items in item order, then the summary when enabled. Never
    /// fails.
    #[verifier::rlimit(100)]
    pub fn render(&self, result: &ScanResult) -> (r: String)
        ensures
            r@ == text_doc(*result, self.show_summary),
    {
        let mut out = String::new();
        let paths = collect_sorted_paths(&result.items);
        let ghost pathsv = sorted_paths(result.items@);
        let g = paths.len();
        let mut gi: usize = 0;
        proof {
            assert(out@ + text_groups(pathsv, result.items@, 0) =~= text_groups(
                pathsv,
                result.items@,
                0,
            ));
        }
        while gi < g
            invariant
                g == paths@.len(),
                pathsv == views_of(paths@),
                gi <= g,
                text_groups(pathsv, result.items@, 0) =~= out@ + text_groups(
                    pathsv,
                    result.items@,
                    gi as int,
                ),
            decreases g - gi,
        {
            let p = paths[gi].as_str();
            proof {
                assert(paths@[gi as int]@ == pathsv[gi as int]);
            }
            if gi > 0 {
                out.append("\n");
            }
            out.append(p);
            out.append("\n");
            let group_items = collect_items_of_path(&result.items, p);
            let ghost before_items = out@;
            let m = group_items.len();
            let mut j: usize = 0;
            proof {
                assert(out@ =~= before_items + text_items(group_items@, 0).subrange(0, 0));
            }
            while j < m
                invariant
                    m == group_items@.len(),
                    j <= m,
                    group_items@ == items_of_path(result.items@, pathsv[gi as int]),
                    text_items(group_items@, 0) =~= out@.skip(before_items.len() as int)
                        + text_items(group_items@, j as int),
                    out@.len() >= before_items.len(),
                    out@.subrange(0, before_items.len() as int) == before_items,
                decreases m - j,
            {
                let ghost prev = out@;
                append_text_item(&mut out, &group_items[j]);
                proof {
                    assert(out@.skip(before_items.len() as int) =~= prev.skip(
                        before_items.len() as int,
                    ) + text_item(group_items@[j as int]));
                    assert(out@.subrange(0, before_items.len() as int) =~= before_items);
                    assert(text_items(group_items@, 0) =~= out@.skip(before_items.len() as int)
                        + text_items(group_items@, j + 1));
                }
                j += 1;
            }
            proof {
                assert(out@ =~= before_items + text_items(group_items@, 0));
                assert(text_groups(pathsv, result.items@, 0) =~= out@ + text_groups(
                    pathsv,
                    result.items@,
                    gi + 1,
                ));
            }
            gi += 1;
        }
        if self.show_summary {
            append_text_summary(&mut out, result);
            proof {
                assert(out@ =~= text_doc(*result, self.show_summary));
            }
        } else {
            proof {
                assert(out@ =~= text_doc(*result, self.show_summary));
            }
        }
        out
    }
}

impl OutputFormatter for TextFormatter {
    fn format(&self, result: &ScanResult) -> Result<String, TodoError> {
        Ok(self.render(result))
    }
}

} // verus!
