//! Workflow-annotation output: one `::level file=...` line per item.

use vstd::prelude::*;
use crate::error::TodoError;
use crate::model::{ScanResult, TodoItem, tag_text};
use crate::filter::{norm_slashes, normalize_slashes};
use crate::strutil::{dec_str, usize_to_string};
use crate::output::OutputFormatter;

verus! {

pub struct GithubActionsFormatter;

/// The annotation level of a tag: broken-code tags are errors, everything
/// else a warning.
pub open spec fn gha_level(it: TodoItem) -> Seq<char> {
    if tag_text(it.tag) == "FIXME"@ || tag_text(it.tag) == "BUG"@ {
        "error"@
    } else {
        "warning"@
    }
}

/// One annotation line for one item.
pub open spec fn gha_line(it: TodoItem) -> Seq<char> {
    "::"@ + gha_level(it) + " file="@ + norm_slashes(it.file@) + ",line="@ + dec_str(
        it.line as int,
    ) + ",col="@ + dec_str(it.column as int) + "::"@ + tag_text(it.tag) + ": "@ + it.message@
    + "\n"@
}

/// The annotation lines of the items from index `i` on.
pub open spec fn gha_lines(items: Seq<TodoItem>, i: int) -> Seq<char>
    decreases items.len() - i,
{
    if i < 0 || i >= items.len() {
        Seq::empty()
    } else {
        gha_line(items[i]) + gha_lines(items, i + 1)
    }
}

impl GithubActionsFormatter {
    /// Renders one annotation line per item, in item order. Never fails.
    #[verifier::rlimit(100)]
    pub fn render(&self, result: &ScanResult) -> (r: String)
        ensures
            r@ == gha_lines(result.items@, 0),
    {
        let n = result.items.len();
        let mut out = String::new();
        let mut i: usize = 0;
        proof {
            assert(out@ + gha_lines(result.items@, 0) =~= gha_lines(result.items@, 0));
        }
        while i < n
            invariant
                n == result.items@.len(),
                i <= n,
                gha_lines(result.items@, 0) =~= out@ + gha_lines(result.items@, i as int),
            decreases n - i,
        {
            let item = &result.items[i];
            let level: &str = if crate::strutil::str_eq(item.tag.as_str(), "FIXME")
                || crate::strutil::str_eq(item.tag.as_str(), "BUG") {
                "error"
            } else {
                "warning"
            };
            let file = normalize_slashes(item.file.as_str());
            out.append("::");
            out.append(level);
            out.append(" file=");
            out.append(file.as_str());
            out.append(",line=");
            out.append(usize_to_string(item.line).as_str());
            out.append(",col=");
            out.append(usize_to_string(item.column).as_str());
            out.append("::");
            out.append(item.tag.as_str());
            out.append(": ");
            out.append(item.message.as_str());
            out.append("\n");
            proof {
                assert(gha_lines(result.items@, 0) =~= out@ + gha_lines(result.items@, i + 1));
            }
            i += 1;
        }
        out
    }
}

impl OutputFormatter for GithubActionsFormatter {
    fn format(&self, result: &ScanResult) -> Result<String, TodoError> {
        Ok(self.render(result))
    }
}

} // verus!
