//! Markdown output: a title, one section per file with its items, and a
//! closing summary.

use vstd::prelude::*;
use crate::error::TodoError;
use crate::model::{Priority, ScanResult, TodoItem, tag_text};
use crate::strutil::{dec_str, usize_to_string, u64_to_string, joined, join_strings, views_of};
use crate::output::{OutputFormatter, sorted_paths, items_of_path, collect_sorted_paths,
    collect_items_of_path};

verus! {

pub struct MarkdownFormatter;

/// The issue text with a leading hash, added when missing.
pub open spec fn hash_issue(s: Seq<char>) -> Seq<char> {
    if s.len() > 0 && s[0] == '#' {
        s
    } else {
        "#"@ + s
    }
}

/// The alias text of a priority.
pub open spec fn priority_alias(p: Priority) -> Seq<char> {
    match p {
        Priority::Low => "p:low"@,
        Priority::Medium => "p:medium"@,
        Priority::High => "p:high"@,
        Priority::Critical => "p:critical"@,
    }
}

/// The metadata fragments of an item, in display order.
pub open spec fn meta_parts(it: TodoItem) -> Seq<Seq<char>> {
    (match it.author {
        Some(a) => seq![a@],
        None => Seq::empty(),
    }) + (match it.issue {
        Some(x) => seq![hash_issue(x@)],
        None => Seq::empty(),
    }) + (match it.priority {
        Some(p) => seq![priority_alias(p)],
        None => Seq::empty(),
    })
}

/// The metadata an item displays: its fragments joined inside parentheses,
/// or nothing when there are none.
pub open spec fn meta_text(it: TodoItem) -> Seq<char> {
    let parts = meta_parts(it);
    if parts.len() == 0 {
        Seq::empty()
    } else {
        "("@ + joined(parts, ", "@) + ")"@
    }
}

/// Builds the `(author, #issue, p:level)` display of an item's metadata;
/// empty when the item has none.
pub fn format_metadata(item: &TodoItem) -> (r: String)
    ensures
        r@ == meta_text(*item),
{
    let mut parts: Vec<String> = Vec::new();
    match &item.author {
        Some(author) => {
            parts.push(author.clone());
        },
        None => {},
    }
    match &item.issue {
        Some(issue) => {
            let ilen = issue.as_str().unicode_len();
            if ilen > 0 && issue.as_str().get_char(0) == '#' {
                parts.push(issue.clone());
            } else {
                let mut h = String::from_str("#");
                h.append(issue.as_str());
                proof {
                    assert(h@ =~= hash_issue(issue@));
                }
                parts.push(h);
            }
        },
        None => {},
    }
    match &item.priority {
        Some(p) => {
            let alias = match p {
                Priority::Low => "p:low",
                Priority::Medium => "p:medium",
                Priority::High => "p:high",
                Priority::Critical => "p:critical",
            };
            parts.push(String::from_str(alias));
        },
        None => {},
    }
    proof {
        assert(views_of(parts@) =~= meta_parts(*item));
    }
    if parts.len() == 0 {
        String::new()
    } else {
        let mut out = String::from_str("(");
        out.append(join_strings(&parts, ", ").as_str());
        out.append(")");
        proof {
            assert(out@ =~= meta_text(*item));
        }
        out
    }
}

/// One list entry for one item.
pub open spec fn md_item(it: TodoItem) -> Seq<char> {
    "- **"@ + tag_text(it.tag) + "** (L"@ + dec_str(it.line as int) + "): "@ + it.message@ + (
    if meta_text(it).len() == 0 {
        Seq::<char>::empty()
    } else {
        " *"@ + meta_text(it) + "*"@
    }) + "\n"@
}

pub open spec fn md_items(items: Seq<TodoItem>, i: int) -> Seq<char>
    decreases items.len() - i,
{
    if i < 0 || i >= items.len() {
        Seq::empty()
    } else {
        md_item(items[i]) + md_items(items, i + 1)
    }
}

/// One file section: a heading, the file's items, a blank line.
pub open spec fn md_group(items: Seq<TodoItem>, p: Seq<char>) -> Seq<char> {
    "## "@ + p + "\n\n"@ + md_items(items_of_path(items, p), 0) + "\n"@
}

pub open spec fn md_groups(paths: Seq<Seq<char>>, items: Seq<TodoItem>, gi: int) -> Seq<char>
    decreases paths.len() - gi,
{
    if gi < 0 || gi >= paths.len() {
        Seq::empty()
    } else {
        md_group(items, paths[gi]) + md_groups(paths, items, gi + 1)
    }
}

/// The closing summary of a report.
pub open spec fn summary_text(result: ScanResult) -> Seq<char> {
    "---\n\n**"@ + dec_str(result.stats.total_todos as int) + " TODOs** in "@ + dec_str(
        result.stats.files_with_todos as int,
    ) + " files (scanned "@ + dec_str(result.stats.files_scanned as int) + " files in "@
    + dec_str(result.metadata.scan_duration_ms as int) + "ms)\n"@
}

/// The whole report.
pub open spec fn md_doc(result: ScanResult) -> Seq<char> {
    "# TODO Report\n\n"@ + (if result.items@.len() == 0 {
        "No TODO items found.\n\n"@ + summary_text(result)
    } else {
        md_groups(sorted_paths(result.items@), result.items@, 0) + summary_text(result)
    })
}

/// Appends the closing summary: a rule, then the totals line.
pub fn write_summary(out: &mut String, result: &ScanResult)
    ensures
        final(out)@ == old(out)@ + summary_text(*result),
{
    out.append("---\n\n**");
    out.append(usize_to_string(result.stats.total_todos).as_str());
    out.append(" TODOs** in ");
    out.append(usize_to_string(result.stats.files_with_todos).as_str());
    out.append(" files (scanned ");
    out.append(usize_to_string(result.stats.files_scanned).as_str());
    out.append(" files in ");
    out.append(u64_to_string(result.metadata.scan_duration_ms).as_str());
    out.append("ms)\n");
    proof {
        assert(final(out)@ =~= old(out)@ + summary_text(*result));
    }
}

/// Appends one item's list entry.
fn append_md_item(out: &mut String, item: &TodoItem)
    ensures
        final(out)@ == old(out)@ + md_item(*item),
{
    out.append("- **");
    out.append(item.tag.as_str());
    out.append("** (L");
    out.append(usize_to_string(item.line).as_str());
    out.append("): ");
    out.append(item.message.as_str());
    let meta = format_metadata(item);
    if meta.as_str().unicode_len() > 0 {
        out.append(" *");
        out.append(meta.as_str());
        out.append("*");
    }
    out.append("\n");
    proof {
        assert(final(out)@ =~= old(out)@ + md_item(*item));
    }
}

impl MarkdownFormatter {
    /// Renders the report: the title, one section per file in path order
    /// with that file's items in item order, and the summary. Never fails.
    pub fn render(&self, result: &ScanResult) -> (r: String)
        ensures
            r@ == md_doc(*result),
    {
        let mut out = String::from_str("# TODO Report\n\n");
        if result.items.len() == 0 {
            out.append("No TODO items found.\n\n");
            write_summary(&mut out, result);
            proof {
                assert(out@ =~= md_doc(*result));
            }
            return out;
        }
        let paths = collect_sorted_paths(&result.items);
        let ghost pathsv = sorted_paths(result.items@);
        let g = paths.len();
        let mut gi: usize = 0;
        proof {
            assert(md_doc(*result) =~= out@ + md_groups(pathsv, result.items@, 0) + summary_text(
                *result,
            ));
        }
        while gi < g
            invariant
                g == paths@.len(),
                pathsv == views_of(paths@),
                gi <= g,
                md_doc(*result) =~= out@ + md_groups(pathsv, result.items@, gi as int)
                    + summary_text(*result),
            decreases g - gi,
        {
            let p = paths[gi].as_str();
            proof {
                assert(paths@[gi as int]@ == pathsv[gi as int]);
            }
            out.append("## ");
            out.append(p);
            out.append("\n\n");
            let group_items = collect_items_of_path(&result.items, p);
            let ghost before_items = out@;
            let m = group_items.len();
            let mut j: usize = 0;
            proof {
                assert(out@ =~= before_items + md_items(group_items@, 0).subrange(
                    0,
                    0,
                ));
            }
            while j < m
                invariant
                    m == group_items@.len(),
                    j <= m,
                    group_items@ == items_of_path(result.items@, pathsv[gi as int]),
                    md_items(group_items@, 0) =~= out@.skip(before_items.len() as int) + md_items(
                        group_items@,
                        j as int,
                    ),
                    out@.len() >= before_items.len(),
                    out@.subrange(0, before_items.len() as int) == before_items,
                decreases m - j,
            {
                let ghost prev = out@;
                append_md_item(&mut out, &group_items[j]);
                proof {
                    assert(out@.skip(before_items.len() as int) =~= prev.skip(
                        before_items.len() as int,
                    ) + md_item(group_items@[j as int]));
                    assert(out@.subrange(0, before_items.len() as int) =~= before_items);
                    assert(md_items(group_items@, 0) =~= out@.skip(before_items.len() as int)
                        + md_items(group_items@, j + 1));
                }
                j += 1;
            }
            out.append("\n");
            proof {
                assert(out@ =~= before_items + md_items(group_items@, 0) + "\n"@);
                assert(md_doc(*result) =~= out@ + md_groups(pathsv, result.items@, gi + 1)
                    + summary_text(*result));
            }
            gi += 1;
        }
        write_summary(&mut out, result);
        proof {
            assert(out@ =~= md_doc(*result));
        }
        out
    }
}

impl OutputFormatter for MarkdownFormatter {
    fn format(&self, result: &ScanResult) -> Result<String, TodoError> {
        Ok(self.render(result))
    }
}

} // verus!
