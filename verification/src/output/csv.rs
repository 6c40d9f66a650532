//! Comma-separated output: a header row and one row per item, fields
//! quoted exactly when they hold a comma, a quote or a line break, with
//! quotes doubled inside quoted fields.

use vstd::prelude::*;
use crate::error::TodoError;
use crate::model::{Priority, ScanResult, TodoItem, tag_text};
use crate::strutil::{dec_str, usize_to_string, push_char};
use crate::output::OutputFormatter;

verus! {

pub struct CsvFormatter;

/// A character that forces a field to be quoted.
pub open spec fn csv_special(c: char) -> bool {
    c == ',' || c == '"' || c == '\n' || c == '\r'
}

/// The field text with every quote doubled.
pub open spec fn csv_doubled(s: Seq<char>) -> Seq<char>
    decreases s.len(),
{
    if s.len() == 0 {
        Seq::empty()
    } else {
        csv_doubled(s.drop_last()) + (if s.last() == '"' {
            seq!['"', '"']
        } else {
            seq![s.last()]
        })
    }
}

/// Whether any character of the field forces quoting.
pub open spec fn has_special(s: Seq<char>) -> bool
    decreases s.len(),
{
    if s.len() == 0 {
        false
    } else {
        has_special(s.drop_last()) || csv_special(s.last())
    }
}

/// A rendered field: quoted with doubled quotes when any special character
/// occurs in it, verbatim otherwise.
pub open spec fn csv_field(s: Seq<char>) -> Seq<char> {
    if has_special(s) {
        seq!['"'] + csv_doubled(s) + seq!['"']
    } else {
        s
    }
}

/// The canonical text of an optional priority; empty when absent.
pub open spec fn priority_field(p: Option<Priority>) -> Seq<char> {
    match p {
        Some(Priority::Low) => "low"@,
        Some(Priority::Medium) => "medium"@,
        Some(Priority::High) => "high"@,
        Some(Priority::Critical) => "critical"@,
        None => Seq::empty(),
    }
}

pub open spec fn opt_field(s: Option<String>) -> Seq<char> {
    match s {
        Some(x) => x@,
        None => Seq::empty(),
    }
}

/// The location half of a row.
pub open spec fn csv_row_head(it: TodoItem) -> Seq<char> {
    csv_field(it.file@) + ","@ + dec_str(it.line as int) + ","@ + dec_str(it.column as int)
    + ","@
}

/// The content half of a row.
pub open spec fn csv_row_tail(it: TodoItem) -> Seq<char> {
    csv_field(tag_text(it.tag)) + ","@ + csv_field(it.message@) + ","@ + csv_field(
        opt_field(it.author),
    ) + ","@ + csv_field(opt_field(it.issue)) + ","@ + csv_field(priority_field(it.priority))
    + "\n"@
}

/// One data row for one item.
pub open spec fn csv_row(it: TodoItem) -> Seq<char> {
    csv_row_head(it) + csv_row_tail(it)
}

pub open spec fn csv_rows(items: Seq<TodoItem>, i: int) -> Seq<char>
    decreases items.len() - i,
{
    if i < 0 || i >= items.len() {
        Seq::empty()
    } else {
        csv_row(items[i]) + csv_rows(items, i + 1)
    }
}

/// The whole document: the header row, then one row per item in order.
pub open spec fn csv_doc(items: Seq<TodoItem>) -> Seq<char> {
    "file,line,column,tag,message,author,issue,priority\n"@ + csv_rows(items, 0)
}

/// Appends one field, quoting it when needed.
fn append_field(out: &mut String, s: &str)
    ensures
        final(out)@ == old(out)@ + csv_field(s@),
{
    let slen = s.unicode_len();
    let mut special = false;
    let mut j: usize = 0;
    proof {
        assert(s@.subrange(0, 0) =~= Seq::<char>::empty());
    }
    while j < slen
        invariant
            slen == s@.len(),
            j <= slen,
            special == has_special(s@.subrange(0, j as int)),
        decreases slen - j,
    {
        let c = s.get_char(j);
        if c == ',' || c == '"' || c == '\n' || c == '\r' {
            special = true;
        }
        j += 1;
        proof {
            assert(s@.subrange(0, j as int).drop_last() =~= s@.subrange(0, j - 1));
            assert(s@.subrange(0, j as int).last() == s@[j - 1]);
        }
    }
    proof {
        assert(s@.subrange(0, slen as int) =~= s@);
    }
    if special {
        push_char(out, '"');
        let ghost base = out@;
        let mut j: usize = 0;
        proof {
            assert(s@.subrange(0, 0) =~= Seq::<char>::empty());
            assert(out@ =~= base + csv_doubled(s@.subrange(0, 0)));
        }
        while j < slen
            invariant
                slen == s@.len(),
                j <= slen,
                out@ == base + csv_doubled(s@.subrange(0, j as int)),
            decreases slen - j,
        {
            let c = s.get_char(j);
            if c == '"' {
                push_char(out, '"');
                push_char(out, '"');
            } else {
                push_char(out, c);
            }
            j += 1;
            proof {
                assert(s@.subrange(0, j as int).drop_last() =~= s@.subrange(0, j - 1));
                assert(s@.subrange(0, j as int).last() == s@[j - 1]);
                assert(out@ =~= base + csv_doubled(s@.subrange(0, j as int)));
            }
        }
        push_char(out, '"');
        proof {
            assert(s@.subrange(0, slen as int) =~= s@);
            assert(final(out)@ =~= old(out)@ + csv_field(s@));
        }
    } else {
        out.append(s);
        proof {
            assert(final(out)@ =~= old(out)@ + csv_field(s@));
        }
    }
}

/// Appends one data row.
#[verifier::rlimit(100)]
fn append_row(out: &mut String, item: &TodoItem)
    ensures
        final(out)@ == old(out)@ + csv_row(*item),
{
    proof {
        reveal_strlit("");
        assert(""@ =~= Seq::<char>::empty());
    }
    append_field(out, item.file.as_str());
    out.append(",");
    out.append(usize_to_string(item.line).as_str());
    out.append(",");
    out.append(usize_to_string(item.column).as_str());
    out.append(",");
    proof {
        assert(out@ =~= old(out)@ + csv_row_head(*item));
    }
    let ghost mid = out@;
    append_field(out, item.tag.as_str());
    out.append(",");
    append_field(out, item.message.as_str());
    out.append(",");
    let ghost g2 = out@;
    proof {
        assert(g2 =~= mid + csv_field(tag_text(item.tag)) + ","@ + csv_field(item.message@)
            + ","@);
    }
    match &item.author {
        Some(a) => append_field(out, a.as_str()),
        None => append_field(out, ""),
    }
    out.append(",");
    let ghost g3 = out@;
    proof {
        assert(g3 =~= g2 + csv_field(opt_field(item.author)) + ","@);
    }
    match &item.issue {
        Some(x) => append_field(out, x.as_str()),
        None => append_field(out, ""),
    }
    out.append(",");
    let ghost g4 = out@;
    proof {
        assert(g4 =~= g3 + csv_field(opt_field(item.issue)) + ","@);
    }
    match &item.priority {
        Some(Priority::Low) => append_field(out, "low"),
        Some(Priority::Medium) => append_field(out, "medium"),
        Some(Priority::High) => append_field(out, "high"),
        Some(Priority::Critical) => append_field(out, "critical"),
        None => append_field(out, ""),
    }
    out.append("\n");
    proof {
        assert(out@ =~= g4 + csv_field(priority_field(item.priority)) + "\n"@);
        assert(out@ =~= mid + csv_row_tail(*item));
        assert(final(out)@ =~= old(out)@ + csv_row(*item));
    }
}

impl CsvFormatter {
    /// Renders the header and one row per item, in item order. Never
    /// fails.
    pub fn render(&self, result: &ScanResult) -> (r: String)
        ensures
            r@ == csv_doc(result.items@),
    {
        let mut out = String::from_str("file,line,column,tag,message,author,issue,priority\n");
        let n = result.items.len();
        let mut i: usize = 0;
        proof {
            assert(csv_doc(result.items@) =~= out@ + csv_rows(result.items@, 0));
        }
        while i < n
            invariant
                n == result.items@.len(),
                i <= n,
                csv_doc(result.items@) =~= out@ + csv_rows(result.items@, i as int),
            decreases n - i,
        {
            append_row(&mut out, &result.items[i]);
            proof {
                assert(csv_doc(result.items@) =~= out@ + csv_rows(result.items@, i + 1));
            }
            i += 1;
        }
        out
    }
}

impl OutputFormatter for CsvFormatter {
    fn format(&self, result: &ScanResult) -> Result<String, TodoError> {
        Ok(self.render(result))
    }
}

} // verus!
