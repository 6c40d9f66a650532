//! Parsing of `git blame --porcelain` output into per-line authorship, and
//! the Unix-timestamp-to-date conversion it uses.

use vstd::prelude::*;
use std::collections::HashMap;
use crate::model::TodoItem;
use crate::strutil::{is_hex_digit, is_hex_digit_exec, tokens_from, split_whitespace_exec,
    lines_of, split_lines, views_of, zero_padded, u64_to_string_pad, str_starts_with,
    valid_int_str, int_is_negative, int_str_val, parse_u64, parse_i64};

verus! {

broadcast use vstd::std_specs::hash::group_hash_axioms;

/// Authorship of one line: author name, commit date, and commit hash.
#[derive(Debug, Clone)]
pub struct BlameInfo {
    pub author: String,
    pub date: String,
    pub commit: String,
}

/// A year divisible by four is a leap year, unless it starts a century
/// that is not divisible by four hundred.
pub open spec fn is_leap_year_spec(y: int) -> bool {
    (y % 4 == 0 && y % 100 != 0) || y % 400 == 0
}

pub fn is_leap_year(y: i64) -> (r: bool)
    ensures
        r == is_leap_year_spec(y as int),
{
    (y % 4 == 0 && y % 100 != 0) || y % 400 == 0
}

pub open spec fn days_in_year(y: int) -> int {
    if is_leap_year_spec(y) {
        366
    } else {
        365
    }
}

/// Walks years forward from 1970 until the remaining day count fits in one
/// year; yields the year and the remaining days.
pub open spec fn year_walk(days: int, y: int) -> (int, int)
    decreases days,
{
    if days < days_in_year(y) || days <= 0 {
        (y, days)
    } else {
        year_walk(days - days_in_year(y), y + 1)
    }
}

/// The length of month `m` (one-based) in year `y`.
pub open spec fn month_len(y: int, m: int) -> int {
    if m == 1 { 31 }
    else if m == 2 { if is_leap_year_spec(y) { 29 } else { 28 } }
    else if m == 3 { 31 }
    else if m == 4 { 30 }
    else if m == 5 { 31 }
    else if m == 6 { 30 }
    else if m == 7 { 31 }
    else if m == 8 { 31 }
    else if m == 9 { 30 }
    else if m == 10 { 31 }
    else if m == 11 { 30 }
    else { 31 }
}

/// Walks months forward from January until the remaining day count fits in
/// one month; yields the month and the remaining days.
pub open spec fn month_walk(days: int, y: int, m: int) -> (int, int)
    decreases 12 - m,
{
    if m >= 12 || days < month_len(y, m) {
        (m, days)
    } else {
        month_walk(days - month_len(y, m), y, m + 1)
    }
}

/// The `YYYY-MM-DD` rendering of a non-negative Unix timestamp.
pub open spec fn date_of_timestamp(ts: int) -> Seq<char> {
    let days = ts / 86400;
    let yw = year_walk(days, 1970);
    let mw = month_walk(yw.1, yw.0, 1);
    zero_padded(yw.0, 4) + "-"@ + zero_padded(mw.0, 2) + "-"@ + zero_padded(mw.1 + 1, 2)
}

/// Formats a non-negative Unix timestamp as `YYYY-MM-DD`.
pub fn format_timestamp(ts: i64) -> (r: String)
    requires
        ts >= 0,
    ensures
        r@ == date_of_timestamp(ts as int),
{
    let days: i64 = ts / 86400;
    let mut y: i64 = 1970;
    let mut remaining: i64 = days;
    proof {
        assert(year_walk(days as int, 1970) == year_walk(remaining as int, y as int));
    }
    loop
        invariant
            0 <= remaining <= days,
            1970 <= y,
            y - 1970 <= days - remaining,
            year_walk(days as int, 1970) == year_walk(remaining as int, y as int),
        decreases remaining,
    {
        let diy: i64 = if is_leap_year(y) {
            366
        } else {
            365
        };
        if remaining < diy {
            break;
        }
        remaining = remaining - diy;
        y = y + 1;
    }
    let ghost yw = year_walk(days as int, 1970);
    proof {
        assert(yw == (y as int, remaining as int));
    }
    let mut m: i64 = 1;
    proof {
        assert(month_walk(yw.1, yw.0, 1) == month_walk(remaining as int, y as int, m as int));
    }
    loop
        invariant
            1 <= m <= 12,
            0 <= remaining,
            remaining <= days,
            yw == (y as int, year_walk(days as int, 1970).1),
            month_walk(yw.1, yw.0, 1) == month_walk(remaining as int, y as int, m as int),
        decreases 12 - m,
    {
        let dim: i64 = if m == 1 { 31 }
        else if m == 2 { if is_leap_year(y) { 29 } else { 28 } }
        else if m == 3 { 31 }
        else if m == 4 { 30 }
        else if m == 5 { 31 }
        else if m == 6 { 30 }
        else if m == 7 { 31 }
        else if m == 8 { 31 }
        else if m == 9 { 30 }
        else if m == 10 { 31 }
        else if m == 11 { 30 }
        else { 31 };
        if m >= 12 || remaining < dim {
            break;
        }
        remaining = remaining - dim;
        m = m + 1;
    }
    let ghost mw = month_walk(yw.1, yw.0, 1);
    proof {
        assert(mw == (m as int, remaining as int));
    }
    let mut out = u64_to_string_pad(y as u64, 4);
    out.append("-");
    out.append(u64_to_string_pad(m as u64, 2).as_str());
    out.append("-");
    out.append(u64_to_string_pad((remaining + 1) as u64, 2).as_str());
    proof {
        assert(out@ =~= date_of_timestamp(ts as int));
    }
    out
}

/// The authorship of one line, at the specification level.
#[verifier::ext_equal]
pub ghost struct BlameV {
    pub author: Seq<char>,
    pub date: Seq<char>,
    pub commit: Seq<char>,
}

/// A line introduces a commit header when it is at least forty characters
/// long and its first forty are hexadecimal digits.
pub open spec fn is_commit_line(line: Seq<char>) -> bool {
    line.len() >= 40 && forall|j: int| 0 <= j < 40 ==> is_hex_digit(#[trigger] line[j])
}

/// The running state of the porcelain walk.
#[verifier::ext_equal]
pub ghost struct BlameSt {
    pub author: Seq<char>,
    pub date: Seq<char>,
    pub commit: Seq<char>,
    pub line_no: int,
    pub map: Map<int, BlameV>,
}

/// One step of the porcelain walk: a commit header sets the current commit
/// and line number; `author` and `author-time` headers set the author and
/// the formatted date (a timestamp that does not parse, or is negative, is
/// ignored); a tab-led content line records the current state under the
/// current line number when one is known.
pub open spec fn blame_step(st: BlameSt, line: Seq<char>) -> BlameSt {
    if is_commit_line(line) {
        let parts = tokens_from(line, 0);
        if parts.len() >= 3 {
            let ln = if valid_int_str(parts[2]) && !int_is_negative(parts[2]) && int_str_val(
                parts[2],
            ) <= usize::MAX as int {
                int_str_val(parts[2])
            } else {
                0
            };
            BlameSt { commit: parts[0], line_no: ln, ..st }
        } else {
            st
        }
    } else if "author "@.is_prefix_of(line) {
        BlameSt { author: line.skip(7), ..st }
    } else if "author-time "@.is_prefix_of(line) {
        let rest = line.skip(12);
        if valid_int_str(rest) && i64::MIN as int <= int_str_val(rest) <= i64::MAX as int
            && int_str_val(rest) >= 0 {
            BlameSt { date: date_of_timestamp(int_str_val(rest)), ..st }
        } else {
            st
        }
    } else if line.len() > 0 && line[0] == '\t' {
        if st.line_no > 0 {
            BlameSt {
                map: st.map.insert(
                    st.line_no,
                    BlameV { author: st.author, date: st.date, commit: st.commit },
                ),
                ..st
            }
        } else {
            st
        }
    } else {
        st
    }
}

pub open spec fn blame_fold(lines: Seq<Seq<char>>, i: int, st: BlameSt) -> BlameSt
    decreases lines.len() - i,
{
    if i < 0 || i >= lines.len() {
        st
    } else {
        blame_fold(lines, i + 1, blame_step(st, lines[i]))
    }
}

pub open spec fn blame_init() -> BlameSt {
    BlameSt {
        author: Seq::empty(),
        date: Seq::empty(),
        commit: Seq::empty(),
        line_no: 0,
        map: Map::empty(),
    }
}

/// The per-line authorship a porcelain text denotes.
pub open spec fn blame_map_of(text: Seq<char>) -> Map<int, BlameV> {
    blame_fold(lines_of(text), 0, blame_init()).map
}

/// The exec map agrees with the specification map, key by key.
pub open spec fn blame_models(m: Map<usize, BlameInfo>, g: Map<int, BlameV>) -> bool {
    &&& forall|k: usize| #[trigger] m.contains_key(k) <==> g.contains_key(k as int)
    &&& forall|k: usize|
        #[trigger] m.contains_key(k) ==> {
            &&& m[k].author@ == g[k as int].author
            &&& m[k].date@ == g[k as int].date
            &&& m[k].commit@ == g[k as int].commit
        }
    &&& forall|k: int| #[trigger] g.contains_key(k) ==> 0 < k <= usize::MAX as int
}

/// Parses `git blame --porcelain` output into a map from one-based line
/// number to authorship, walking the text line by line as `blame_step`
/// describes. Parsing always succeeds: unrecognised lines are skipped.
pub fn parse_blame_porcelain(output: &str) -> (r: Result<HashMap<usize, BlameInfo>, String>)
    ensures
        r is Ok,
        r matches Ok(m) ==> blame_models(m@, blame_map_of(output@)),
{
    let lines = split_lines(output);
    let ghost linesv = lines_of(output@);
    let n = lines.len();
    let mut current_author = String::new();
    let mut current_date = String::new();
    let mut current_commit = String::new();
    let mut current_line: usize = 0;
    let mut result: HashMap<usize, BlameInfo> = HashMap::new();
    let mut i: usize = 0;
    let ghost st0 = blame_init();
    proof {
        assert(blame_models(result@, st0.map));
        assert(linesv.subrange(0, 0) =~= Seq::<Seq<char>>::empty());
    }
    while i < n
        invariant
            n == lines@.len(),
            linesv == views_of(lines@),
            i <= n,
            current_author@ == blame_fold(linesv.subrange(0, i as int), 0, st0).author,
            current_date@ == blame_fold(linesv.subrange(0, i as int), 0, st0).date,
            current_commit@ == blame_fold(linesv.subrange(0, i as int), 0, st0).commit,
            current_line as int == blame_fold(linesv.subrange(0, i as int), 0, st0).line_no,
            blame_models(result@, blame_fold(linesv.subrange(0, i as int), 0, st0).map),
        decreases n - i,
    {
        let ghost cur = blame_fold(linesv.subrange(0, i as int), 0, st0);
        let line = lines[i].as_str();
        let llen = line.unicode_len();
        proof {
            assert(lines@[i as int]@ == linesv[i as int]);
        }
        // commit header: forty leading hexadecimal digits
        let mut is_commit = llen >= 40;
        if is_commit {
            let mut j: usize = 0;
            while j < 40
                invariant
                    llen == line@.len(),
                    llen >= 40,
                    j <= 40,
                    is_commit,
                    forall|q: int| 0 <= q < j ==> is_hex_digit(#[trigger] line@[q]),
                decreases 40 - j,
            {
                if !is_hex_digit_exec(line.get_char(j)) {
                    proof {
                        assert(!is_commit_line(line@)) by {
                            assert(!is_hex_digit(line@[j as int]));
                        }
                    }
                    is_commit = false;
                    break;
                }
                j += 1;
            }
            proof {
                if is_commit {
                    assert(is_commit_line(line@));
                } else {
                    assert(!is_commit_line(line@));
                }
            }
        } else {
            proof {
                assert(!is_commit_line(line@));
            }
        }
        if is_commit {
            proof {
                assert(is_commit_line(line@));
            }
            let parts = split_whitespace_exec(line);
            proof {
                assert(views_of(parts@) == tokens_from(line@, 0));
            }
            if parts.len() >= 3 {
                current_commit = parts[0].clone();
                proof {
                    assert(parts@[0]@ == tokens_from(line@, 0)[0]);
                    assert(parts@[2]@ == tokens_from(line@, 0)[2]);
                }
                proof {
                    if valid_int_str(parts@[2]@) && !int_is_negative(parts@[2]@) {
                        crate::strutil::lemma_digits_val_nonneg(
                            crate::strutil::int_body(parts@[2]@),
                        );
                    }
                }
                current_line = match parse_u64(parts[2].as_str()) {
                    Some(v) => if v <= usize::MAX as u64 {
                        v as usize
                    } else {
                        0
                    },
                    None => 0,
                };
            }
        } else if str_starts_with(line, "author ") {
            proof {
                reveal_strlit("author ");
                assert("author "@.len() == 7);
            }
            current_author = String::from_str(line.substring_char(7, llen));
            proof {
                assert(line@.subrange(7, llen as int) =~= line@.skip(7));
            }
        } else if str_starts_with(line, "author-time ") {
            proof {
                reveal_strlit("author-time ");
                assert("author-time "@.len() == 12);
            }
            let rest = line.substring_char(12, llen);
            proof {
                assert(rest@ =~= line@.skip(12));
            }
            match parse_i64(rest) {
                Some(ts) => {
                    if ts >= 0 {
                        current_date = format_timestamp(ts);
                    }
                },
                None => {},
            }
        } else if llen > 0 && line.get_char(0) == '\t' {
            if current_line > 0 {
                let info = BlameInfo {
                    author: current_author.clone(),
                    date: current_date.clone(),
                    commit: current_commit.clone(),
                };
                result.insert(current_line, info);
            }
        } else {
            proof {
                // headers checked above do not begin this line
                assert(!("author "@.is_prefix_of(line@))) by {
                    reveal_strlit("author ");
                }
                assert(!("author-time "@.is_prefix_of(line@))) by {
                    reveal_strlit("author-time ");
                }
            }
        }
        proof {
            let nxt = blame_step(cur, linesv[i as int]);
            assert(linesv.subrange(0, i + 1).drop_last() =~= linesv.subrange(0, i as int));
            lemma_blame_fold_snoc2(linesv, i as int, st0);
            assert(blame_fold(linesv.subrange(0, i + 1), 0, st0) == nxt);
            assert(blame_models(result@, nxt.map));
        }
        i += 1;
    }
    proof {
        assert(linesv.subrange(0, n as int) =~= linesv);
        assert(blame_models(result@, blame_map_of(output@)));
    }
    Ok(result)
}

/// Folding a sequence processes its last element last.
proof fn lemma_blame_fold_step(lines: Seq<Seq<char>>, i: int, st: BlameSt)
    requires
        0 <= i <= lines.len(),
        lines.len() > 0,
    ensures
        i < lines.len() ==> blame_fold(lines, i, st) == blame_step(
            blame_fold(lines.drop_last(), i, st),
            lines[lines.len() - 1],
        ),
        i == lines.len() ==> blame_fold(lines, i, st) == st,
    decreases lines.len() - i,
{
    if i < lines.len() {
        if i == lines.len() - 1 {
            assert(blame_fold(lines, i, st) == blame_fold(lines, i + 1, blame_step(st, lines[i])));
        } else {
            lemma_blame_fold_step(lines, i + 1, blame_step(st, lines[i]));
            assert(lines.drop_last()[i] == lines[i]);
        }
    }
}

proof fn lemma_blame_fold_snoc2(lines: Seq<Seq<char>>, i: int, st0: BlameSt)
    requires
        0 <= i < lines.len(),
    ensures
        blame_fold(lines.subrange(0, i + 1), 0, st0) == blame_step(
            blame_fold(lines.subrange(0, i), 0, st0),
            lines[i],
        ),
{
    let cur = lines.subrange(0, i + 1);
    assert(cur.drop_last() =~= lines.subrange(0, i));
    lemma_blame_fold_step(cur, 0, st0);
    assert(cur[cur.len() - 1] == lines[i]);
}

/// Attaches blame authorship to items in place: an item on a line the
/// blame map knows gains that line's author and date; every other field,
/// and items on unknown lines, stay unchanged.
pub fn apply_blame(items: &mut Vec<TodoItem>, blame: &HashMap<usize, BlameInfo>)
    ensures
        final(items)@.len() == old(items)@.len(),
        forall|j: int|
            0 <= j < old(items)@.len() ==> {
                let a = old(items)@[j];
                let b = #[trigger] final(items)@[j];
                if blame@.contains_key(a.line) {
                    &&& b.git_author matches Some(ga) && ga@ == blame@[a.line].author@
                    &&& b.git_date matches Some(gd) && gd@ == blame@[a.line].date@
                    &&& b.tag == a.tag && b.message == a.message && b.file == a.file && b.line
                        == a.line && b.column == a.column && b.author == a.author && b.issue
                        == a.issue && b.priority == a.priority && b.context_line == a.context_line
                } else {
                    b == a
                }
            },
{
    let n = items.len();
    let mut j: usize = 0;
    while j < n
        invariant
            n == items@.len(),
            items@.len() == old(items)@.len(),
            j <= n,
            forall|q: int| j <= q < n ==> #[trigger] items@[q] == old(items)@[q],
            forall|q: int|
                0 <= q < j ==> {
                    let a = old(items)@[q];
                    let b = #[trigger] items@[q];
                    if blame@.contains_key(a.line) {
                        &&& b.git_author matches Some(ga) && ga@ == blame@[a.line].author@
                        &&& b.git_date matches Some(gd) && gd@ == blame@[a.line].date@
                        &&& b.tag == a.tag && b.message == a.message && b.file == a.file && b.line
                            == a.line && b.column == a.column && b.author == a.author && b.issue
                            == a.issue && b.priority == a.priority && b.context_line
                            == a.context_line
                    } else {
                        b == a
                    }
                },
        decreases n - j,
    {
        let line_no = items[j].line;
        match blame.get(&line_no) {
            Some(info) => {
                let mut it = items[j].clone_item();
                it.git_author = Some(info.author.clone());
                it.git_date = Some(info.date.clone());
                items.set(j, it);
            },
            None => {},
        }
        j += 1;
    }
}

} // verus!
