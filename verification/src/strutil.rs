//! Verified character and string utilities shared across the crate: ASCII
//! case mapping, searching, trimming, line splitting and decimal formatting.

use vstd::prelude::*;

verus! {

/// Whitespace characters recognised when trimming (the ASCII subset).
pub open spec fn is_space(c: char) -> bool {
    c == ' ' || c == '\t' || c == '\n' || c == '\r' || c == '\u{b}' || c == '\u{c}'
}

/// Word characters for tag word-boundary detection.
pub open spec fn is_word_char(c: char) -> bool {
    ('a' <= c && c <= 'z') || ('A' <= c && c <= 'Z') || ('0' <= c && c <= '9') || c == '_'
}

/// ASCII lower-casing of a single character.
pub open spec fn lower_char(c: char) -> char {
    if 'A' <= c && c <= 'Z' {
        ((c as u8) + 32) as char
    } else {
        c
    }
}

/// ASCII upper-casing of a single character.
pub open spec fn upper_char(c: char) -> char {
    if 'a' <= c && c <= 'z' {
        ((c as u8) - 32) as char
    } else {
        c
    }
}

pub open spec fn lower_chars(s: Seq<char>) -> Seq<char> {
    s.map_values(|c: char| lower_char(c))
}

pub open spec fn upper_chars(s: Seq<char>) -> Seq<char> {
    s.map_values(|c: char| upper_char(c))
}

pub fn is_space_char(c: char) -> (r: bool)
    ensures
        r == is_space(c),
{
    c == ' ' || c == '\t' || c == '\n' || c == '\r' || c == '\u{b}' || c == '\u{c}'
}

pub fn is_word_char_exec(c: char) -> (r: bool)
    ensures
        r == is_word_char(c),
{
    ('a' <= c && c <= 'z') || ('A' <= c && c <= 'Z') || ('0' <= c && c <= '9') || c == '_'
}

/// Character-for-character equality of two string slices.
pub fn str_eq(a: &str, b: &str) -> (r: bool)
    ensures
        r == (a@ == b@),
{
    let alen = a.unicode_len();
    let blen = b.unicode_len();
    if alen != blen {
        assert(a@ != b@) by {
            assert(a@.len() != b@.len());
        }
        return false;
    }
    let mut i: usize = 0;
    while i < alen
        invariant
            alen == a@.len(),
            alen == b@.len(),
            i <= alen,
            forall|j: int| 0 <= j < i ==> a@[j] == b@[j],
        decreases alen - i,
    {
        if a.get_char(i) != b.get_char(i) {
            return false;
        }
        i += 1;
    }
    proof {
        assert(a@ =~= b@);
    }
    true
}

/// Does `s` start with prefix `p`?
pub fn str_starts_with(s: &str, p: &str) -> (r: bool)
    ensures
        r == p@.is_prefix_of(s@),
{
    let slen = s.unicode_len();
    let plen = p.unicode_len();
    if plen > slen {
        return false;
    }
    let mut i: usize = 0;
    while i < plen
        invariant
            slen == s@.len(),
            plen == p@.len(),
            plen <= slen,
            i <= plen,
            forall|j: int| 0 <= j < i ==> s@[j] == p@[j],
        decreases plen - i,
    {
        if s.get_char(i) != p.get_char(i) {
            assert(!p@.is_prefix_of(s@)) by {
                assert(s@.subrange(0, plen as int)[i as int] != p@[i as int]);
            }
            return false;
        }
        i += 1;
    }
    proof {
        assert(s@.subrange(0, plen as int) =~= p@);
    }
    true
}

/// Whether `p` occurs in `s` starting exactly at position `at`.
pub open spec fn occurs_at(s: Seq<char>, p: Seq<char>, at: int) -> bool {
    0 <= at && at + p.len() <= s.len() && s.subrange(at, at + p.len() as int) == p
}

pub fn occurs_at_exec(s: &str, slen: usize, p: &str, at: usize) -> (r: bool)
    requires
        slen == s@.len(),
    ensures
        r == occurs_at(s@, p@, at as int),
{
    let plen = p.unicode_len();
    if at > slen || plen > slen - at {
        return false;
    }
    let mut i: usize = 0;
    while i < plen
        invariant
            slen == s@.len(),
            plen == p@.len(),
            at + plen <= slen,
            i <= plen,
            forall|j: int| 0 <= j < i ==> s@[at + j] == p@[j],
        decreases plen - i,
    {
        if s.get_char(at + i) != p.get_char(i) {
            assert(!occurs_at(s@, p@, at as int)) by {
                assert(s@.subrange(at as int, at + plen as int)[i as int] != p@[i as int]);
            }
            return false;
        }
        i += 1;
    }
    proof {
        assert(s@.subrange(at as int, at + plen as int) =~= p@);
    }
    true
}

/// The first position `at` or after where character `c` occurs in `s`, if any.
pub open spec fn find_char_from(s: Seq<char>, c: char, from: int) -> Option<int>
    decreases s.len() - from,
{
    if from < 0 || from >= s.len() {
        None
    } else if s[from] == c {
        Some(from)
    } else {
        find_char_from(s, c, from + 1)
    }
}

pub proof fn lemma_find_char_from_props(s: Seq<char>, c: char, from: int)
    requires
        0 <= from <= s.len(),
    ensures
        match find_char_from(s, c, from) {
            Some(i) => from <= i < s.len() && s[i] == c && forall|j: int|
                from <= j < i ==> s[j] != c,
            None => forall|j: int| from <= j < s.len() ==> s[j] != c,
        },
    decreases s.len() - from,
{
    if from < s.len() && s[from] != c {
        lemma_find_char_from_props(s, c, from + 1);
    }
}

pub fn find_char(s: &str, slen: usize, c: char, from: usize) -> (r: Option<usize>)
    requires
        slen == s@.len(),
        from <= slen,
    ensures
        match r {
            Some(i) => from <= i < slen && find_char_from(s@, c, from as int) == Some(i as int),
            None => find_char_from(s@, c, from as int) is None,
        },
{
    let mut i: usize = from;
    while i < slen
        invariant
            slen == s@.len(),
            from <= i <= slen,
            find_char_from(s@, c, from as int) == find_char_from(s@, c, i as int),
        decreases slen - i,
    {
        if s.get_char(i) == c {
            return Some(i);
        }
        i += 1;
    }
    None
}

/// The first position `at` or after where `p` occurs as a substring of `s`.
pub open spec fn find_sub_from(s: Seq<char>, p: Seq<char>, from: int) -> Option<int>
    decreases s.len() - from + 1,
{
    if from < 0 || from + p.len() > s.len() {
        None
    } else if s.subrange(from, from + p.len() as int) == p {
        Some(from)
    } else {
        find_sub_from(s, p, from + 1)
    }
}


pub proof fn lemma_find_sub_from_props(s: Seq<char>, p: Seq<char>, from: int)
    requires
        0 <= from,
    ensures
        match find_sub_from(s, p, from) {
            Some(i) => from <= i && occurs_at(s, p, i) && forall|j: int|
                from <= j < i ==> !occurs_at(s, p, j),
            None => forall|j: int| from <= j ==> !occurs_at(s, p, j),
        },
    decreases s.len() - from + 1,
{
    if from + p.len() > s.len() {
        assert forall|j: int| from <= j implies !occurs_at(s, p, j) by {}
    } else if s.subrange(from, from + p.len() as int) == p {
    } else {
        lemma_find_sub_from_props(s, p, from + 1);
    }
}

pub fn find_sub(s: &str, slen: usize, p: &str, from: usize) -> (r: Option<usize>)
    requires
        slen == s@.len(),
        from <= slen,
    ensures
        r == match find_sub_from(s@, p@, from as int) {
            Some(i) => Some(i as usize),
            None => None::<usize>,
        },
        r matches Some(i) ==> from <= i && i + p@.len() <= slen,
{
    let plen = p.unicode_len();
    if plen > slen {
        proof {
            lemma_find_sub_from_props(s@, p@, from as int);
        }
        return None;
    }
    if plen == 0 {
        proof {
            assert(s@.subrange(from as int, from as int) =~= p@);
        }
        return Some(from);
    }
    if from > slen - plen {
        return None;
    }
    let mut i: usize = from;
    while i <= slen - plen
        invariant
            slen == s@.len(),
            plen == p@.len(),
            1 <= plen <= slen,
            from <= i,
            i <= slen - plen + 1,
            find_sub_from(s@, p@, from as int) == find_sub_from(s@, p@, i as int),
        decreases slen - i,
    {
        if occurs_at_exec(s, slen, p, i) {
            return Some(i);
        }
        i += 1;
    }
    proof {
        assert(find_sub_from(s@, p@, i as int) is None);
    }
    None
}

/// Relies on String::push: appends the given character to the end of the string.
#[verifier::external_body]
pub fn push_char(s: &mut String, c: char)
    ensures
        final(s)@ == old(s)@.push(c),
{
    s.push(c);
}

/// ASCII lower-casing of a single character, executable form.
pub fn lower_char_exec(c: char) -> (r: char)
    ensures
        r == lower_char(c),
{
    if 'A' <= c && c <= 'Z' {
        (((c as u8) + 32) as char)
    } else {
        c
    }
}

/// ASCII upper-casing of a single character, executable form.
pub fn upper_char_exec(c: char) -> (r: char)
    ensures
        r == upper_char(c),
{
    if 'a' <= c && c <= 'z' {
        (((c as u8) - 32) as char)
    } else {
        c
    }
}

/// A new string with every ASCII letter lower-cased.
pub fn ascii_lower(s: &str) -> (r: String)
    ensures
        r@ == lower_chars(s@),
{
    let slen = s.unicode_len();
    let mut out = String::new();
    let mut i: usize = 0;
    while i < slen
        invariant
            slen == s@.len(),
            i <= slen,
            out@ == lower_chars(s@.subrange(0, i as int)),
        decreases slen - i,
    {
        push_char(&mut out, lower_char_exec(s.get_char(i)));
        i += 1;
        proof {
            assert(s@.subrange(0, i as int) =~= s@.subrange(0, i - 1).push(s@[i - 1]));
            assert(out@ =~= lower_chars(s@.subrange(0, i as int)));
        }
    }
    proof {
        assert(s@.subrange(0, slen as int) =~= s@);
    }
    out
}

/// A new string with every ASCII letter upper-cased.
pub fn ascii_upper(s: &str) -> (r: String)
    ensures
        r@ == upper_chars(s@),
{
    let slen = s.unicode_len();
    let mut out = String::new();
    let mut i: usize = 0;
    while i < slen
        invariant
            slen == s@.len(),
            i <= slen,
            out@ == upper_chars(s@.subrange(0, i as int)),
        decreases slen - i,
    {
        push_char(&mut out, upper_char_exec(s.get_char(i)));
        i += 1;
        proof {
            assert(s@.subrange(0, i as int) =~= s@.subrange(0, i - 1).push(s@[i - 1]));
            assert(out@ =~= upper_chars(s@.subrange(0, i as int)));
        }
    }
    proof {
        assert(s@.subrange(0, slen as int) =~= s@);
    }
    out
}

/// The index of the first non-whitespace character at or after `from`.
pub open spec fn skip_spaces(s: Seq<char>, from: int) -> int
    decreases s.len() - from,
{
    if from < 0 || from >= s.len() {
        from
    } else if is_space(s[from]) {
        skip_spaces(s, from + 1)
    } else {
        from
    }
}

pub proof fn lemma_skip_spaces_props(s: Seq<char>, from: int)
    requires
        0 <= from <= s.len(),
    ensures
        from <= skip_spaces(s, from) <= s.len(),
        skip_spaces(s, from) < s.len() ==> !is_space(s[skip_spaces(s, from)]),
        forall|j: int| from <= j < skip_spaces(s, from) ==> is_space(s[j]),
    decreases s.len() - from,
{
    if from < s.len() && is_space(s[from]) {
        lemma_skip_spaces_props(s, from + 1);
    }
}

pub fn skip_spaces_exec(s: &str, slen: usize, from: usize) -> (r: usize)
    requires
        slen == s@.len(),
        from <= slen,
    ensures
        r == skip_spaces(s@, from as int),
        from <= r <= slen,
{
    let mut i: usize = from;
    while i < slen
        invariant
            slen == s@.len(),
            from <= i <= slen,
            skip_spaces(s@, from as int) == skip_spaces(s@, i as int),
        decreases slen - i,
    {
        if !is_space_char(s.get_char(i)) {
            return i;
        }
        i += 1;
    }
    i
}

/// One past the index of the last non-whitespace character strictly before `upto`.
pub open spec fn rskip_spaces(s: Seq<char>, upto: int) -> int
    decreases upto,
{
    if upto <= 0 || upto > s.len() {
        upto
    } else if is_space(s[upto - 1]) {
        rskip_spaces(s, upto - 1)
    } else {
        upto
    }
}

pub fn rskip_spaces_exec(s: &str, slen: usize, upto: usize) -> (r: usize)
    requires
        slen == s@.len(),
        upto <= slen,
    ensures
        r == rskip_spaces(s@, upto as int),
        r <= upto,
{
    let mut i: usize = upto;
    while i > 0
        invariant
            slen == s@.len(),
            i <= upto <= slen,
            rskip_spaces(s@, upto as int) == rskip_spaces(s@, i as int),
        decreases i,
    {
        if !is_space_char(s.get_char(i - 1)) {
            return i;
        }
        i -= 1;
    }
    0
}

/// The view of a string with leading and trailing ASCII whitespace
/// removed.
pub open spec fn trimmed(s: Seq<char>) -> Seq<char> {
    let a = skip_spaces(s, 0);
    let b = rskip_spaces(s, s.len() as int);
    if a >= b {
        Seq::empty()
    } else {
        s.subrange(a, b)
    }
}

/// A copy of `s` with leading and trailing ASCII whitespace removed.
pub fn trim_str(s: &str) -> (r: String)
    ensures
        r@ == trimmed(s@),
{
    let slen = s.unicode_len();
    let a = skip_spaces_exec(s, slen, 0);
    let b = rskip_spaces_exec(s, slen, slen);
    if a >= b {
        let r = String::new();
        proof {
            assert(r@ =~= trimmed(s@));
        }
        r
    } else {
        let sub = s.substring_char(a, b);
        let mut r = String::new();
        r.append(sub);
        proof {
            assert(r@ =~= trimmed(s@));
        }
        r
    }
}

/// The decimal digit character for a value below ten.
pub open spec fn dec_digit(d: int) -> char {
    if d == 0 { '0' }
    else if d == 1 { '1' }
    else if d == 2 { '2' }
    else if d == 3 { '3' }
    else if d == 4 { '4' }
    else if d == 5 { '5' }
    else if d == 6 { '6' }
    else if d == 7 { '7' }
    else if d == 8 { '8' }
    else { '9' }
}

/// The decimal representation of a non-negative integer.
pub open spec fn dec_str(n: int) -> Seq<char>
    decreases n,
{
    if n < 10 {
        seq![dec_digit(n)]
    } else {
        dec_str(n / 10).push(dec_digit(n % 10))
    }
}

pub fn dec_digit_exec(d: u64) -> (r: char)
    requires
        d < 10,
    ensures
        r == dec_digit(d as int),
{
    if d == 0 { '0' }
    else if d == 1 { '1' }
    else if d == 2 { '2' }
    else if d == 3 { '3' }
    else if d == 4 { '4' }
    else if d == 5 { '5' }
    else if d == 6 { '6' }
    else if d == 7 { '7' }
    else if d == 8 { '8' }
    else { '9' }
}

/// Decimal formatting of a `u64`.
pub fn u64_to_string(n: u64) -> (r: String)
    ensures
        r@ == dec_str(n as int),
    decreases n,
{
    if n < 10 {
        let mut r = String::new();
        push_char(&mut r, dec_digit_exec(n));
        proof {
            assert(r@ =~= dec_str(n as int));
        }
        r
    } else {
        let mut r = u64_to_string(n / 10);
        push_char(&mut r, dec_digit_exec(n % 10));
        r
    }
}

/// Decimal formatting of a `usize`.
pub fn usize_to_string(n: usize) -> (r: String)
    ensures
        r@ == dec_str(n as int),
{
    u64_to_string(n as u64)
}

/// `dec_str` left-padded with zeros to a minimum width.
pub open spec fn zero_padded(n: int, width: int) -> Seq<char> {
    let d = dec_str(n);
    if d.len() >= width {
        d
    } else {
        Seq::new((width - d.len()) as nat, |i: int| '0') + d
    }
}

/// Decimal formatting of a `u64`, left-padded with zeros to `width`.
pub fn u64_to_string_pad(n: u64, width: usize) -> (r: String)
    ensures
        r@ == zero_padded(n as int, width as int),
{
    let d = u64_to_string(n);
    let dlen = d.as_str().unicode_len();
    if dlen >= width {
        return d;
    }
    let mut r = String::new();
    let mut i: usize = 0;
    while i < width - dlen
        invariant
            dlen == d@.len(),
            dlen < width,
            i <= width - dlen,
            r@ =~= Seq::new(i as nat, |j: int| '0'),
        decreases width - dlen - i,
    {
        push_char(&mut r, '0');
        i += 1;
        proof {
            assert(r@ =~= Seq::new(i as nat, |j: int| '0'));
        }
    }
    r.append(d.as_str());
    proof {
        assert(r@ =~= zero_padded(n as int, width as int));
    }
    r
}

/// `find_char_from` returns exactly the position that first matches.
pub proof fn lemma_find_char_at(s: Seq<char>, c: char, from: int, i: int)
    requires
        0 <= from <= i < s.len(),
        s[i] == c,
        forall|j: int| from <= j < i ==> s[j] != c,
    ensures
        find_char_from(s, c, from) == Some(i),
    decreases i - from,
{
    if from < i {
        lemma_find_char_at(s, c, from + 1, i);
    }
}

/// `find_char_from` returns nothing when no position matches.
pub proof fn lemma_find_char_none(s: Seq<char>, c: char, from: int)
    requires
        0 <= from <= s.len(),
        forall|j: int| from <= j < s.len() ==> s[j] != c,
    ensures
        find_char_from(s, c, from) is None,
    decreases s.len() - from,
{
    if from < s.len() {
        lemma_find_char_none(s, c, from + 1);
    }
}

/// A sequence with one trailing carriage return removed.
pub open spec fn chomp_cr(t: Seq<char>) -> Seq<char> {
    if t.len() > 0 && t[t.len() - 1] == '\r' {
        t.drop_last()
    } else {
        t
    }
}

/// The lines of a text, split at newline characters, with a carriage return
/// preceding a newline removed and no empty final line after a trailing
/// newline. Mirrors the splitting the scanner applies to file content.
pub open spec fn lines_of(s: Seq<char>) -> Seq<Seq<char>>
    decreases s.len(),
{
    if s.len() == 0 {
        Seq::empty()
    } else {
        match find_char_from(s, '\n', 0) {
            Some(i) => if 0 <= i < s.len() {
                seq![chomp_cr(s.subrange(0, i))] + lines_of(s.subrange(i + 1, s.len() as int))
            } else {
                seq![s]
            },
            None => seq![s],
        }
    }
}

/// The views of a vector of strings.
pub open spec fn views_of(v: Seq<String>) -> Seq<Seq<char>> {
    v.map_values(|x: String| x@)
}

/// Splits text into lines as `lines_of` describes.
pub fn split_lines(s: &str) -> (r: Vec<String>)
    ensures
        views_of(r@) == lines_of(s@),
{
    let slen = s.unicode_len();
    let mut r: Vec<String> = Vec::new();
    let mut line_start: usize = 0;
    let mut i: usize = 0;
    proof {
        assert(s@.subrange(0, slen as int) =~= s@);
        assert(views_of(r@) =~= Seq::<Seq<char>>::empty());
    }
    while i < slen
        invariant
            slen == s@.len(),
            line_start <= i <= slen,
            forall|j: int| line_start <= j < i ==> s@[j] != '\n',
            lines_of(s@) =~= views_of(r@) + lines_of(s@.subrange(line_start as int, slen as int)),
        decreases slen - i,
    {
        let ghost prev_r = r@;
        let ghost rest = s@.subrange(line_start as int, slen as int);
        if s.get_char(i) == '\n' {
            let end = if i > line_start && s.get_char(i - 1) == '\r' {
                i - 1
            } else {
                i
            };
            let piece = String::from_str(s.substring_char(line_start, end));
            r.push(piece);
            proof {
                assert(rest[i - line_start] == '\n');
                assert forall|j: int| 0 <= j < i - line_start implies rest[j] != '\n' by {
                    assert(rest[j] == s@[line_start + j]);
                }
                lemma_find_char_at(rest, '\n', 0, i - line_start);
                assert(chomp_cr(rest.subrange(0, i - line_start)) =~= piece@);
                assert(rest.subrange(i - line_start + 1, rest.len() as int) =~= s@.subrange(
                    i + 1,
                    slen as int,
                ));
                assert(views_of(r@) =~= views_of(prev_r).push(piece@));
                assert(lines_of(s@) =~= views_of(r@) + lines_of(
                    s@.subrange(i + 1, slen as int),
                ));
            }
            line_start = i + 1;
        }
        i += 1;
    }
    if line_start < slen {
        let ghost prev_r = r@;
        let ghost rest = s@.subrange(line_start as int, slen as int);
        let piece = String::from_str(s.substring_char(line_start, slen));
        r.push(piece);
        proof {
            assert forall|j: int| 0 <= j < rest.len() implies rest[j] != '\n' by {
                assert(rest[j] == s@[line_start + j]);
            }
            lemma_find_char_none(rest, '\n', 0);
            assert(rest =~= piece@);
            assert(views_of(r@) =~= views_of(prev_r).push(piece@));
            assert(lines_of(s@) =~= views_of(r@));
        }
    } else {
        proof {
            assert(s@.subrange(line_start as int, slen as int).len() == 0);
            assert(lines_of(s@) =~= views_of(r@));
        }
    }
    r
}

/// The pieces of `s` split at every occurrence of `c`; empty pieces are kept.
pub open spec fn split_char_seq(s: Seq<char>, c: char) -> Seq<Seq<char>>
    decreases s.len(),
{
    match find_char_from(s, c, 0) {
        Some(i) => if 0 <= i < s.len() {
            seq![s.subrange(0, i)] + split_char_seq(s.subrange(i + 1, s.len() as int), c)
        } else {
            seq![s]
        },
        None => seq![s],
    }
}

/// Splits a string at every occurrence of `c`, as `split_char_seq` describes.
pub fn split_on_char(s: &str, c: char) -> (r: Vec<String>)
    ensures
        views_of(r@) == split_char_seq(s@, c),
{
    let slen = s.unicode_len();
    let mut r: Vec<String> = Vec::new();
    let mut piece_start: usize = 0;
    let mut i: usize = 0;
    proof {
        assert(s@.subrange(0, slen as int) =~= s@);
        assert(views_of(r@) =~= Seq::<Seq<char>>::empty());
    }
    while i < slen
        invariant
            slen == s@.len(),
            piece_start <= i <= slen,
            forall|j: int| piece_start <= j < i ==> s@[j] != c,
            split_char_seq(s@, c) =~= views_of(r@) + split_char_seq(
                s@.subrange(piece_start as int, slen as int),
                c,
            ),
        decreases slen - i,
    {
        let ghost prev_r = r@;
        let ghost rest = s@.subrange(piece_start as int, slen as int);
        if s.get_char(i) == c {
            let piece = String::from_str(s.substring_char(piece_start, i));
            r.push(piece);
            proof {
                assert(rest[i - piece_start] == c);
                assert forall|j: int| 0 <= j < i - piece_start implies rest[j] != c by {
                    assert(rest[j] == s@[piece_start + j]);
                }
                lemma_find_char_at(rest, c, 0, i - piece_start);
                assert(rest.subrange(0, i - piece_start) =~= piece@);
                assert(rest.subrange(i - piece_start + 1, rest.len() as int) =~= s@.subrange(
                    i + 1,
                    slen as int,
                ));
                assert(views_of(r@) =~= views_of(prev_r).push(piece@));
                assert(split_char_seq(s@, c) =~= views_of(r@) + split_char_seq(
                    s@.subrange(i + 1, slen as int),
                    c,
                ));
            }
            piece_start = i + 1;
        }
        i += 1;
    }
    let ghost prev_r = r@;
    let ghost rest = s@.subrange(piece_start as int, slen as int);
    let piece = String::from_str(s.substring_char(piece_start, slen));
    r.push(piece);
    proof {
        assert forall|j: int| 0 <= j < rest.len() implies rest[j] != c by {
            assert(rest[j] == s@[piece_start + j]);
        }
        lemma_find_char_none(rest, c, 0);
        assert(rest =~= piece@);
        assert(split_char_seq(rest, c) =~= seq![rest]);
        assert(views_of(r@) =~= views_of(prev_r).push(piece@));
        assert(split_char_seq(s@, c) =~= views_of(r@));
    }
    r
}

/// The index of the first whitespace character at or after `from`.
pub open spec fn skip_non_spaces(s: Seq<char>, from: int) -> int
    decreases s.len() - from,
{
    if from < 0 || from >= s.len() {
        from
    } else if !is_space(s[from]) {
        skip_non_spaces(s, from + 1)
    } else {
        from
    }
}

pub proof fn lemma_skip_non_spaces_lb(s: Seq<char>, from: int)
    ensures
        skip_non_spaces(s, from) >= from,
    decreases s.len() - from,
{
    if 0 <= from && from < s.len() && !is_space(s[from]) {
        lemma_skip_non_spaces_lb(s, from + 1);
    }
}

pub fn skip_non_spaces_exec(s: &str, slen: usize, from: usize) -> (r: usize)
    requires
        slen == s@.len(),
        from <= slen,
    ensures
        r == skip_non_spaces(s@, from as int),
        from <= r <= slen,
{
    let mut i: usize = from;
    while i < slen
        invariant
            slen == s@.len(),
            from <= i <= slen,
            skip_non_spaces(s@, from as int) == skip_non_spaces(s@, i as int),
        decreases slen - i,
    {
        if is_space_char(s.get_char(i)) {
            return i;
        }
        i += 1;
    }
    i
}

/// The whitespace-separated tokens of `s` from position `i` on.
pub open spec fn tokens_from(s: Seq<char>, i: int) -> Seq<Seq<char>>
    decreases s.len() - i,
{
    if i < 0 || i >= s.len() {
        Seq::empty()
    } else if is_space(s[i]) {
        tokens_from(s, i + 1)
    } else {
        let j = skip_non_spaces(s, i);
        if i < j <= s.len() {
            seq![s.subrange(i, j)] + tokens_from(s, j)
        } else {
            seq![s.subrange(i, s.len() as int)]
        }
    }
}

/// Splits a string into whitespace-separated tokens.
pub fn split_whitespace_exec(s: &str) -> (r: Vec<String>)
    ensures
        views_of(r@) == tokens_from(s@, 0),
{
    let slen = s.unicode_len();
    let mut r: Vec<String> = Vec::new();
    let mut i: usize = 0;
    proof {
        assert(views_of(r@) =~= Seq::<Seq<char>>::empty());
    }
    while i < slen
        invariant
            slen == s@.len(),
            i <= slen,
            tokens_from(s@, 0) =~= views_of(r@) + tokens_from(s@, i as int),
        decreases slen - i,
    {
        let ghost prev_r = r@;
        if is_space_char(s.get_char(i)) {
            i += 1;
        } else {
            let j = skip_non_spaces_exec(s, slen, i);
            proof {
                lemma_skip_non_spaces_lb(s@, i + 1);
            }
            assert(j > i);
            let piece = String::from_str(s.substring_char(i, j));
            r.push(piece);
            proof {
                assert(views_of(r@) =~= views_of(prev_r).push(piece@));
                assert(tokens_from(s@, 0) =~= views_of(r@) + tokens_from(s@, j as int));
            }
            i = j;
        }
    }
    r
}

pub open spec fn is_digit(c: char) -> bool {
    '0' <= c && c <= '9'
}

pub open spec fn digit_val(c: char) -> int {
    (c as int) - 48
}

/// The value of a sequence of decimal digit characters.
pub open spec fn digits_val(s: Seq<char>) -> int
    decreases s.len(),
{
    if s.len() == 0 {
        0
    } else {
        digits_val(s.drop_last()) * 10 + digit_val(s.last())
    }
}

pub open spec fn all_digits(s: Seq<char>) -> bool {
    forall|j: int| 0 <= j < s.len() ==> is_digit(s[j])
}

/// The digits of a signed integer literal, sign stripped.
pub open spec fn int_body(s: Seq<char>) -> Seq<char> {
    if s.len() > 0 && (s[0] == '+' || s[0] == '-') {
        s.drop_first()
    } else {
        s
    }
}

pub open spec fn int_is_negative(s: Seq<char>) -> bool {
    s.len() > 0 && s[0] == '-'
}

/// Whether `s` is a well-formed signed decimal integer literal.
pub open spec fn valid_int_str(s: Seq<char>) -> bool {
    int_body(s).len() > 0 && all_digits(int_body(s))
}

/// The integer value of a well-formed signed decimal literal.
pub open spec fn int_str_val(s: Seq<char>) -> int {
    if int_is_negative(s) {
        -digits_val(int_body(s))
    } else {
        digits_val(int_body(s))
    }
}

pub proof fn lemma_digits_val_nonneg(s: Seq<char>)
    requires
        all_digits(s),
    ensures
        digits_val(s) >= 0,
    decreases s.len(),
{
    if s.len() > 0 {
        assert(all_digits(s.drop_last()));
        lemma_digits_val_nonneg(s.drop_last());
    }
}

/// Accumulates the value of a digit sequence one digit at a time.
pub proof fn lemma_digits_val_push(s: Seq<char>, c: char)
    ensures
        digits_val(s.push(c)) == digits_val(s) * 10 + digit_val(c),
{
    assert(s.push(c).drop_last() =~= s);
    assert(s.push(c).last() == c);
}

/// A longer digit sequence never has a smaller value.
pub proof fn lemma_digits_val_monotone(s: Seq<char>, k: int)
    requires
        all_digits(s),
        0 <= k <= s.len(),
    ensures
        digits_val(s) >= digits_val(s.subrange(0, k)),
    decreases s.len() - k,
{
    if k < s.len() {
        lemma_digits_val_monotone(s, k + 1);
        let p = s.subrange(0, k);
        let q = s.subrange(0, k + 1);
        assert(q =~= p.push(s[k]));
        lemma_digits_val_push(p, s[k]);
        assert(all_digits(p));
        lemma_digits_val_nonneg(p);
        assert(digits_val(q) == digits_val(p) * 10 + digit_val(s[k]));
        assert(digit_val(s[k]) >= 0);
        assert(digits_val(q) >= digits_val(p));
    } else {
        assert(s.subrange(0, k) =~= s);
    }
}

/// Parses an unsigned decimal integer, with an optional leading plus sign.
/// Returns the value exactly when the text is well formed and fits in `u64`.
pub fn parse_u64(s: &str) -> (r: Option<u64>)
    ensures
        r == (if valid_int_str(s@) && !int_is_negative(s@) && int_str_val(s@) <= u64::MAX as int {
            Some(int_str_val(s@) as u64)
        } else {
            None::<u64>
        }),
{
    let slen = s.unicode_len();
    if slen == 0 {
        return None;
    }
    let first = s.get_char(0);
    if first == '-' {
        return None;
    }
    let start: usize = if first == '+' {
        1
    } else {
        0
    };
    if start == slen {
        assert(int_body(s@).len() == 0);
        return None;
    }
    let ghost body = int_body(s@);
    proof {
        assert(body =~= s@.subrange(start as int, slen as int));
    }
    let mut acc: u64 = 0;
    let mut i: usize = start;
    while i < slen
        invariant
            slen == s@.len(),
            start <= i <= slen,
            start < slen,
            start == 0 || start == 1,
            body == int_body(s@),
            body =~= s@.subrange(start as int, slen as int),
            forall|j: int| 0 <= j < i - start ==> is_digit(body[j]),
            acc == digits_val(body.subrange(0, i - start)),
        decreases slen - i,
    {
        let c = s.get_char(i);
        if !('0' <= c && c <= '9') {
            assert(!all_digits(body)) by {
                assert(body[i - start] == c);
            }
            return None;
        }
        let d: u64 = (c as u32 as u64) - 48;
        proof {
            assert(body.subrange(0, i + 1 - start) =~= body.subrange(0, i - start).push(c));
            lemma_digits_val_push(body.subrange(0, i - start), c);
        }
        if acc > (u64::MAX - d) / 10 {
            proof {
                assert(forall|j: int| 0 <= j < i + 1 - start ==> is_digit(body[j]));
                if all_digits(body) {
                    lemma_digits_val_monotone(body, i + 1 - start);
                    assert(digits_val(body) >= acc * 10 + d);
                    assert(acc * 10 + d > u64::MAX as int) by (nonlinear_arith)
                        requires
                            acc > (u64::MAX - d) / 10,
                            0 <= d < 10,
                        {}
                }
            }
            return None;
        }
        acc = acc * 10 + d;
        i += 1;
    }
    proof {
        assert(body.subrange(0, slen - start as int) =~= body);
        assert(all_digits(body));
        assert(valid_int_str(s@));
        assert(!int_is_negative(s@));
    }
    Some(acc)
}

/// Parses a signed decimal integer. Returns the value exactly when the text
/// is well formed and fits in `i64`.
pub fn parse_i64(s: &str) -> (r: Option<i64>)
    ensures
        r == (if valid_int_str(s@) && i64::MIN as int <= int_str_val(s@) && int_str_val(s@)
            <= i64::MAX as int {
            Some(int_str_val(s@) as i64)
        } else {
            None::<i64>
        }),
{
    let slen = s.unicode_len();
    if slen == 0 {
        return None;
    }
    let first = s.get_char(0);
    if first != '-' {
        let r = parse_u64(s);
        match r {
            Some(v) => {
                proof {
                    lemma_digits_val_nonneg(int_body(s@));
                }
                if v <= i64::MAX as u64 {
                    return Some(v as i64);
                } else {
                    proof {
                        lemma_digits_val_nonneg(int_body(s@));
                    }
                    return None;
                }
            },
            None => {
                proof {
                    if valid_int_str(s@) && int_str_val(s@) <= i64::MAX as int {
                        lemma_digits_val_nonneg(int_body(s@));
                    }
                }
                return None;
            },
        }
    }
    // negative: parse the digits after the sign
    let ghost body = int_body(s@);
    proof {
        assert(body =~= s@.subrange(1, slen as int));
    }
    if slen == 1 {
        return None;
    }
    let mut acc: u64 = 0;
    let mut i: usize = 1;
    while i < slen
        invariant
            slen == s@.len(),
            1 <= i <= slen,
            1 < slen,
            s@[0] == '-',
            body == int_body(s@),
            body =~= s@.subrange(1, slen as int),
            forall|j: int| 0 <= j < i - 1 ==> is_digit(body[j]),
            acc == digits_val(body.subrange(0, i - 1)),
            acc <= 9223372036854775808u64,
        decreases slen - i,
    {
        let c = s.get_char(i);
        if !('0' <= c && c <= '9') {
            assert(!all_digits(body)) by {
                assert(body[i - 1] == c);
            }
            return None;
        }
        let d: u64 = (c as u32 as u64) - 48;
        proof {
            assert(body.subrange(0, i as int) =~= body.subrange(0, i - 1).push(c));
            lemma_digits_val_push(body.subrange(0, i - 1), c);
        }
        if acc > (9223372036854775808u64 - d) / 10 {
            proof {
                assert(forall|j: int| 0 <= j < i ==> is_digit(body[j]));
                if all_digits(body) {
                    lemma_digits_val_monotone(body, i as int);
                    assert(digits_val(body) >= acc * 10 + d);
                    assert(acc * 10 + d > 9223372036854775808u64 as int) by (nonlinear_arith)
                        requires
                            acc > (9223372036854775808u64 - d) / 10,
                            0 <= d < 10,
                        {}
                }
            }
            return None;
        }
        acc = acc * 10 + d;
        i += 1;
    }
    proof {
        assert(body.subrange(0, slen - 1 as int) =~= body);
        assert(all_digits(body));
        assert(valid_int_str(s@));
        assert(int_is_negative(s@));
    }
    if acc == 9223372036854775808u64 {
        Some(i64::MIN)
    } else {
        Some(-(acc as i64))
    }
}

pub open spec fn is_hex_digit(c: char) -> bool {
    ('0' <= c && c <= '9') || ('a' <= c && c <= 'f') || ('A' <= c && c <= 'F')
}

pub fn is_hex_digit_exec(c: char) -> (r: bool)
    ensures
        r == is_hex_digit(c),
{
    ('0' <= c && c <= '9') || ('a' <= c && c <= 'f') || ('A' <= c && c <= 'F')
}

/// A sequence filtered by a predicate, split off one element at a time.
pub proof fn lemma_filter_push<A>(s: Seq<A>, p: spec_fn(A) -> bool, e: A)
    ensures
        s.push(e).filter(p) == if p(e) {
            s.filter(p).push(e)
        } else {
            s.filter(p)
        },
{
    reveal(Seq::filter);
    assert(s.push(e).drop_last() =~= s);
    assert(s.push(e).last() == e);
}

/// The pieces joined with a separator between neighbours.
pub open spec fn joined(parts: Seq<Seq<char>>, sep: Seq<char>) -> Seq<char>
    decreases parts.len(),
{
    if parts.len() == 0 {
        Seq::empty()
    } else if parts.len() == 1 {
        parts[0]
    } else {
        joined(parts.drop_last(), sep) + sep + parts.last()
    }
}

/// Joins strings with a separator.
pub fn join_strings(parts: &Vec<String>, sep: &str) -> (r: String)
    ensures
        r@ == joined(views_of(parts@), sep@),
{
    let n = parts.len();
    let mut out = String::new();
    let mut i: usize = 0;
    proof {
        assert(views_of(parts@).subrange(0, 0) =~= Seq::<Seq<char>>::empty());
        assert(out@ =~= joined(views_of(parts@).subrange(0, 0), sep@));
    }
    while i < n
        invariant
            n == parts@.len(),
            i <= n,
            out@ == joined(views_of(parts@).subrange(0, i as int), sep@),
        decreases n - i,
    {
        if i > 0 {
            out.append(sep);
        }
        out.append(parts[i].as_str());
        proof {
            let vs = views_of(parts@);
            assert(vs.subrange(0, i + 1).drop_last() =~= vs.subrange(0, i as int));
            assert(vs.subrange(0, i + 1).last() == vs[i as int]);
            assert(vs[i as int] == parts@[i as int]@);
            if i == 0 {
                assert(out@ =~= joined(vs.subrange(0, 1), sep@));
            } else {
                assert(out@ =~= joined(vs.subrange(0, i + 1), sep@));
            }
        }
        i += 1;
    }
    proof {
        assert(views_of(parts@).subrange(0, n as int) =~= views_of(parts@));
    }
    out
}

} // verus!
