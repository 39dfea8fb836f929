//! Reading a wordlist from its text files.
//!
//! The idiom file holds one idiom per line, in index order.  The optional
//! pinyin file is CSV with the header `index,chinese_idiom,pinyin` and one
//! row per idiom, in index order; fields are separated by `,` or the
//! full-width `，` (U+FF0C).  Lines end with `\n` or `\r\n`; every field is
//! trimmed of Unicode white space and of leading byte-order marks.
use crate::idiom_list::{is_valid_wordlist, string_views, ChineseIdiomList};
use crate::primitives::push_char;
use vstd::prelude::*;
use vstd::string::*;

verus! {

// ---------------------------------------------------------------------------
// The format
// ---------------------------------------------------------------------------
/// Unicode `White_Space` (PropList.txt), as used by `char::is_whitespace`
/// and `str::trim`.
pub open spec fn is_white_space(c: char) -> bool {
    let v = c as u32;
    (0x09 <= v <= 0x0d) || v == 0x20 || v == 0x85 || v == 0xa0 || v == 0x1680 || (0x2000 <= v
        <= 0x200a) || v == 0x2028 || v == 0x2029 || v == 0x202f || v == 0x205f || v == 0x3000
}

/// `s` without its leading white space.
pub open spec fn trim_start(s: Seq<char>) -> Seq<char>
    decreases s.len(),
{
    if s.len() > 0 && is_white_space(s[0]) {
        trim_start(s.drop_first())
    } else {
        s
    }
}

/// `s` without its trailing white space.
pub open spec fn trim_end(s: Seq<char>) -> Seq<char>
    decreases s.len(),
{
    if s.len() > 0 && is_white_space(s.last()) {
        trim_end(s.drop_last())
    } else {
        s
    }
}

/// `s` without its leading byte-order marks (U+FEFF).
pub open spec fn strip_bom(s: Seq<char>) -> Seq<char>
    decreases s.len(),
{
    if s.len() > 0 && s[0] == '\u{feff}' {
        strip_bom(s.drop_first())
    } else {
        s
    }
}

/// `s` trimmed of white space at both ends (`str::trim`).
pub open spec fn trim(s: Seq<char>) -> Seq<char> {
    trim_end(trim_start(s))
}

/// A field as read: trimmed of white space, then of leading byte-order marks.
pub open spec fn clean_field(s: Seq<char>) -> Seq<char> {
    strip_bom(trim(s))
}

/// The pieces of `s` between separators (empty pieces kept), where `cur`
/// is the piece in progress before `s`.
pub open spec fn split_keep(s: Seq<char>, sep: spec_fn(char) -> bool, cur: Seq<char>) -> Seq<Seq<char>>
    decreases s.len(),
{
    if s.len() == 0 {
        seq![cur]
    } else if sep(s[0]) {
        seq![cur] + split_keep(s.drop_first(), sep, seq![])
    } else {
        split_keep(s.drop_first(), sep, cur.push(s[0]))
    }
}

/// The pieces of `s` between separators, empty pieces kept.
pub open spec fn split_by(s: Seq<char>, sep: spec_fn(char) -> bool) -> Seq<Seq<char>> {
    split_keep(s, sep, seq![])
}

/// Line feed.
pub open spec fn newline_sep() -> spec_fn(char) -> bool {
    |c: char| c == '\n'
}

/// CSV field separators: `,` and `，` (U+FF0C).
pub open spec fn field_sep() -> spec_fn(char) -> bool {
    |c: char| c == ',' || c == '\u{ff0c}'
}

/// A line without the carriage return of a `\r\n` ending.
pub open spec fn strip_cr(line: Seq<char>) -> Seq<char> {
    if line.len() > 0 && line.last() == '\r' {
        line.drop_last()
    } else {
        line
    }
}

/// The lines of a text: split at `\n`, a `\r` before the `\n` removed, no
/// line after a final `\n`.
pub open spec fn text_lines(s: Seq<char>) -> Seq<Seq<char>> {
    let p = split_by(s, newline_sep());
    let body = Seq::new((p.len() - 1) as nat, |i: int| strip_cr(p[i]));
    if p.last().len() == 0 {
        body
    } else {
        body.push(p.last())
    }
}

/// The idioms of the idiom file: its lines, cleaned.
pub open spec fn file_idioms(txt: Seq<char>) -> Seq<Seq<char>> {
    text_lines(txt).map_values(|l: Seq<char>| clean_field(l))
}

/// A line with full-width commas read as commas.
pub open spec fn ascii_commas(line: Seq<char>) -> Seq<char> {
    line.map_values(|c: char| if c == '\u{ff0c}' { ',' } else { c })
}

/// The header of the pinyin file.
pub open spec fn csv_header() -> Seq<char> {
    "index,chinese_idiom,pinyin"@
}

/// The value of a string of decimal digits.
pub open spec fn digits_value(s: Seq<char>) -> nat
    decreases s.len(),
{
    if s.len() == 0 {
        0
    } else {
        digits_value(s.drop_last()) * 10 + ((s.last() as u32) - 48) as nat
    }
}

/// A string of decimal digits.
pub open spec fn all_digits(s: Seq<char>) -> bool {
    forall|i: int| 0 <= i < s.len() ==> 48 <= #[trigger] (s[i] as u32) <= 57
}

/// At least one decimal digit, the value fitting in `usize`.
pub open spec fn parse_digits(d: Seq<char>) -> Option<nat> {
    if d.len() > 0 && all_digits(d) && digits_value(d) <= usize::MAX {
        Some(digits_value(d))
    } else {
        None
    }
}

/// `usize::from_str`: an optional `+`, then at least one decimal digit,
/// the value fitting in `usize`.
pub open spec fn parse_usize(s: Seq<char>) -> Option<nat> {
    if s.len() > 0 && s[0] == '+' {
        parse_digits(s.drop_first())
    } else {
        parse_digits(s)
    }
}

/// Row `k` of the pinyin file: three fields, the index `k`, and the idiom
/// at index `k`.
pub open spec fn csv_row_ok(row: Seq<char>, k: int, idioms: Seq<Seq<char>>) -> bool {
    let f = split_by(row, field_sep());
    &&& f.len() == 3
    &&& parse_usize(trim(f[0])) == Some(k as nat)
    &&& 0 <= k < idioms.len()
    &&& clean_field(f[1]) == idioms[k]
}

/// A pinyin file that matches the idioms: the header, then one row per
/// idiom, 4096 in all.
pub open spec fn csv_valid(csv: Seq<char>, idioms: Seq<Seq<char>>) -> bool {
    let lines = text_lines(csv);
    &&& lines.len() == 4097
    &&& ascii_commas(lines[0]) == csv_header()
    &&& forall|k: int| 0 <= k < 4096 ==> #[trigger] csv_row_ok(lines[k + 1], k, idioms)
}

/// The pinyin of each row: its third field, cleaned.
pub open spec fn csv_pinyin(csv: Seq<char>) -> Seq<Seq<char>> {
    Seq::new(4096, |k: int| clean_field(split_by(text_lines(csv)[k + 1], field_sep())[2]))
}

/// Files that make a wordlist: a valid list of idioms, and a pinyin file
/// that matches it, if there is one.
pub open spec fn wordlist_files_valid(txt: Seq<char>, csv: Option<Seq<char>>) -> bool {
    &&& is_valid_wordlist(file_idioms(txt))
    &&& match csv {
        None => true,
        Some(c) => csv_valid(c, file_idioms(txt)),
    }
}

/// The pinyin read from the files: none without a pinyin file.
pub open spec fn files_pinyin(csv: Option<Seq<char>>) -> Seq<Seq<char>> {
    match csv {
        None => seq![],
        Some(c) => csv_pinyin(c),
    }
}

/// The characters of an optional text.
pub open spec fn opt_view(s: Option<&str>) -> Option<Seq<char>> {
    match s {
        None => None,
        Some(t) => Some(t@),
    }
}

// ---------------------------------------------------------------------------
// Character ranges
// ---------------------------------------------------------------------------
/// Ranges that lie within `chars`.
pub open spec fn ranges_ok(chars: Seq<char>, r: Seq<(usize, usize)>) -> bool {
    forall|i: int| 0 <= i < r.len() ==> (#[trigger] r[i]).0 <= r[i].1 <= chars.len()
}

/// The characters in each range.
pub open spec fn ranges_view(chars: Seq<char>, r: Seq<(usize, usize)>) -> Seq<Seq<char>> {
    r.map_values(|p: (usize, usize)| chars.subrange(p.0 as int, p.1 as int))
}

/// The characters of a string, in order.
pub fn chars_of(s: &str) -> (v: Vec<char>)
    ensures
        v@ == s@,
{
    let mut v: Vec<char> = Vec::new();
    for c in it: s.chars()
        invariant
            v@ == it.seq().take(it.index() as int),
    {
        v.push(c);
    }
    v
}

/// A string holding `chars[a..b]`.
fn string_of(chars: &Vec<char>, a: usize, b: usize) -> (s: String)
    requires
        a <= b <= chars@.len(),
    ensures
        s@ == chars@.subrange(a as int, b as int),
{
    let mut s = String::new();
    let mut i = a;
    while i < b
        invariant
            a <= i <= b <= chars@.len(),
            s@ == chars@.subrange(a as int, i as int),
        decreases b - i,
    {
        push_char(&mut s, chars[i]);
        assert(chars@.subrange(a as int, i + 1) =~= chars@.subrange(a as int, i as int).push(chars@[i as int]));
        i = i + 1;
    }
    s
}

fn is_white_space_char(c: char) -> (ws: bool)
    ensures
        ws == is_white_space(c),
{
    let v = c as u32;
    (0x09 <= v && v <= 0x0d) || v == 0x20 || v == 0x85 || v == 0xa0 || v == 0x1680 || (0x2000 <= v
        && v <= 0x200a) || v == 0x2028 || v == 0x2029 || v == 0x202f || v == 0x205f || v == 0x3000
}

/// The range of `chars[a..b]` trimmed of white space.
fn trim_range(chars: &Vec<char>, a: usize, b: usize) -> (r: (usize, usize))
    requires
        a <= b <= chars@.len(),
    ensures
        a <= r.0 <= r.1 <= b,
        chars@.subrange(r.0 as int, r.1 as int) == trim(chars@.subrange(a as int, b as int)),
{
    let ghost s = chars@;
    let mut i = a;
    while i < b && is_white_space_char(chars[i])
        invariant
            a <= i <= b <= s.len(),
            s == chars@,
            trim_start(s.subrange(a as int, b as int)) == trim_start(s.subrange(i as int, b as int)),
        decreases b - i,
    {
        assert(s.subrange(i as int, b as int).drop_first() =~= s.subrange(i + 1, b as int));
        i = i + 1;
    }
    assert(trim_start(s.subrange(i as int, b as int)) == s.subrange(i as int, b as int));
    let mut j = b;
    while j > i && is_white_space_char(chars[j - 1])
        invariant
            a <= i <= j <= b <= s.len(),
            s == chars@,
            trim_end(s.subrange(i as int, b as int)) == trim_end(s.subrange(i as int, j as int)),
        decreases j - i,
    {
        assert(s.subrange(i as int, j as int).drop_last() =~= s.subrange(i as int, j - 1));
        j = j - 1;
    }
    assert(trim_end(s.subrange(i as int, j as int)) == s.subrange(i as int, j as int));
    (i, j)
}

/// The range of the cleaned field `chars[a..b]`.
fn clean_range(chars: &Vec<char>, a: usize, b: usize) -> (r: (usize, usize))
    requires
        a <= b <= chars@.len(),
    ensures
        a <= r.0 <= r.1 <= b,
        chars@.subrange(r.0 as int, r.1 as int) == clean_field(chars@.subrange(a as int, b as int)),
{
    let ghost s = chars@;
    let t = trim_range(chars, a, b);
    let mut i: usize = t.0;
    let j: usize = t.1;
    let ghost i0 = i;
    while i < j && chars[i] == '\u{feff}'
        invariant
            a <= i0 <= i <= j <= b <= s.len(),
            s == chars@,
            strip_bom(s.subrange(i0 as int, j as int)) == strip_bom(s.subrange(i as int, j as int)),
        decreases j - i,
    {
        assert(s.subrange(i as int, j as int).drop_first() =~= s.subrange(i + 1, j as int));
        i = i + 1;
    }
    assert(strip_bom(s.subrange(i as int, j as int)) == s.subrange(i as int, j as int));
    (i, j)
}

/// The separator predicate for lines or for CSV fields.
pub open spec fn sep_of(comma: bool) -> spec_fn(char) -> bool {
    if comma {
        field_sep()
    } else {
        newline_sep()
    }
}

/// The ranges of the pieces of `chars[lo..hi]` between separators (line
/// feeds, or CSV field separators when `comma`).
fn split_ranges(chars: &Vec<char>, lo: usize, hi: usize, comma: bool) -> (r: Vec<(usize, usize)>)
    requires
        lo <= hi <= chars@.len(),
    ensures
        ranges_ok(chars@, r@),
        forall|i: int| 0 <= i < r@.len() ==> lo <= (#[trigger] r@[i]).0,
        forall|i: int| 0 <= i < r@.len() ==> (#[trigger] r@[i]).1 <= hi,
        ranges_view(chars@, r@) == split_by(chars@.subrange(lo as int, hi as int), sep_of(comma)),
{
    let ghost s = chars@;
    let ghost sep = sep_of(comma);
    let mut r: Vec<(usize, usize)> = Vec::new();
    let mut start = lo;
    let mut i = lo;
    assert(s.subrange(lo as int, lo as int) =~= Seq::<char>::empty());
    while i < hi
        invariant
            lo <= start <= i <= hi <= s.len(),
            s == chars@,
            sep == sep_of(comma),
            ranges_ok(s, r@),
            forall|k: int| 0 <= k < r@.len() ==> lo <= (#[trigger] r@[k]).0,
            forall|k: int| 0 <= k < r@.len() ==> (#[trigger] r@[k]).1 <= hi,
            split_by(s.subrange(lo as int, hi as int), sep) == ranges_view(s, r@) + split_keep(
                s.subrange(i as int, hi as int),
                sep,
                s.subrange(start as int, i as int),
            ),
        decreases hi - i,
    {
        let c = chars[i];
        let rest = Ghost(s.subrange(i as int, hi as int));
        let cur = Ghost(s.subrange(start as int, i as int));
        assert(rest@[0] == c);
        assert(rest@.drop_first() =~= s.subrange(i + 1, hi as int));
        let is_sep = if comma {
            c == ',' || c == '\u{ff0c}'
        } else {
            c == '\n'
        };
        assert(is_sep == sep(c));
        if is_sep {
            let ghost before = ranges_view(s, r@);
            r.push((start, i));
            assert(ranges_view(s, r@) =~= before.push(cur@));
            assert(before + (seq![cur@] + split_keep(s.subrange(i + 1, hi as int), sep, seq![]))
                =~= ranges_view(s, r@) + split_keep(s.subrange(i + 1, hi as int), sep, seq![]));
            start = i + 1;
            assert(s.subrange(start as int, start as int) =~= Seq::<char>::empty());
        } else {
            assert(cur@.push(c) =~= s.subrange(start as int, i + 1));
        }
        i = i + 1;
    }
    let ghost before = ranges_view(s, r@);
    assert(s.subrange(hi as int, hi as int).len() == 0);
    r.push((start, hi));
    assert(ranges_view(s, r@) =~= before.push(s.subrange(start as int, hi as int)));
    r
}

/// The ranges of the lines of `chars` (see `text_lines`).
fn line_ranges(chars: &Vec<char>) -> (r: Vec<(usize, usize)>)
    ensures
        ranges_ok(chars@, r@),
        ranges_view(chars@, r@) == text_lines(chars@),
{
    let ghost s = chars@;
    let n = chars.len();
    let pieces = split_ranges(chars, 0, n, false);
    assert(s.subrange(0, n as int) =~= s);
    let ghost p = split_by(s, newline_sep());
    assert(p.len() >= 1) by {
        lemma_split_keep_nonempty(s, newline_sep(), seq![]);
    }
    let mut r: Vec<(usize, usize)> = Vec::new();
    let mut k: usize = 0;
    while k < pieces.len() - 1
        invariant
            s == chars@,
            p == split_by(s, newline_sep()),
            ranges_ok(s, pieces@),
            ranges_view(s, pieces@) == p,
            p.len() >= 1,
            0 <= k <= p.len() - 1,
            ranges_ok(s, r@),
            ranges_view(s, r@) =~= Seq::new(k as nat, |i: int| strip_cr(p[i])),
        decreases p.len() - k,
    {
        let (a, b) = pieces[k];
        assert(s.subrange(a as int, b as int) == p[k as int]);
        let end = if b > a && chars[b - 1] == '\r' {
            assert(s.subrange(a as int, b as int).drop_last() =~= s.subrange(a as int, b - 1));
            b - 1
        } else {
            b
        };
        let ghost before = ranges_view(s, r@);
        r.push((a, end));
        assert(ranges_view(s, r@) =~= before.push(strip_cr(p[k as int])));
        k = k + 1;
    }
    let (a, b) = pieces[k];
    assert(s.subrange(a as int, b as int) == p.last());
    if b > a {
        let ghost before = ranges_view(s, r@);
        r.push((a, b));
        assert(ranges_view(s, r@) =~= before.push(p.last()));
    }
    r
}

proof fn lemma_split_keep_nonempty(s: Seq<char>, sep: spec_fn(char) -> bool, cur: Seq<char>)
    ensures
        split_keep(s, sep, cur).len() >= 1,
    decreases s.len(),
{
    if s.len() > 0 {
        if sep(s[0]) {
            lemma_split_keep_nonempty(s.drop_first(), sep, seq![]);
        } else {
            lemma_split_keep_nonempty(s.drop_first(), sep, cur.push(s[0]));
        }
    }
}

/// Whether `chars[a..b]` reads as the number `k` (`usize::from_str`).
fn reads_as_number(chars: &Vec<char>, a: usize, b: usize, k: usize) -> (ok: bool)
    requires
        a <= b <= chars@.len(),
        k < 4096,
    ensures
        ok == (parse_usize(chars@.subrange(a as int, b as int)) == Some(k as nat)),
{
    let ghost s = chars@.subrange(a as int, b as int);
    let mut i = a;
    if i < b && chars[i] == '+' {
        assert(s[0] == chars@[a as int]);
        i = i + 1;
        assert(s.drop_first() =~= chars@.subrange(i as int, b as int));
    } else {
        assert(s.len() > 0 ==> s[0] == chars@[a as int]);
        assert(s =~= chars@.subrange(i as int, b as int));
    }
    let ghost d = chars@.subrange(i as int, b as int);
    assert(parse_usize(s) == parse_digits(d));
    if i == b {
        return false;
    }
    let i0 = i;
    let mut acc: u32 = 0;
    while i < b
        invariant
            a <= i0 <= i <= b <= chars@.len(),
            k < 4096,
            d == chars@.subrange(i0 as int, b as int),
            d.len() > 0,
            parse_usize(chars@.subrange(a as int, b as int)) == parse_digits(d),
            all_digits(chars@.subrange(i0 as int, i as int)),
            acc as nat == if digits_value(chars@.subrange(i0 as int, i as int)) < 4097 {
                digits_value(chars@.subrange(i0 as int, i as int))
            } else {
                4097
            },
        decreases b - i,
    {
        let c = chars[i] as u32;
        if c < 48 || c > 57 {
            assert(d[i - i0] == chars@[i as int]);
            assert(!all_digits(d));
            return false;
        }
        let prefix = Ghost(chars@.subrange(i0 as int, i + 1));
        assert(prefix@.drop_last() =~= chars@.subrange(i0 as int, i as int));
        assert(prefix@.last() == chars@[i as int]);
        let next = acc * 10 + (c - 48);
        acc = if next > 4097 {
            4097
        } else {
            next
        };
        assert(all_digits(prefix@)) by {
            assert forall|j: int| 0 <= j < prefix@.len() implies 48 <= #[trigger] (prefix@[j] as u32) <= 57 by {
                if j < prefix@.len() - 1 {
                    assert(prefix@[j] == chars@.subrange(i0 as int, i as int)[j]);
                }
            }
        }
        i = i + 1;
    }
    assert(chars@.subrange(i0 as int, b as int) == d);
    assert(all_digits(d));
    acc == k as u32
}

/// Whether two character ranges hold the same characters.
fn ranges_equal(x: &Vec<char>, xa: usize, xb: usize, y: &Vec<char>, ya: usize, yb: usize) -> (eq: bool)
    requires
        xa <= xb <= x@.len(),
        ya <= yb <= y@.len(),
    ensures
        eq == (x@.subrange(xa as int, xb as int) == y@.subrange(ya as int, yb as int)),
{
    if xb - xa != yb - ya {
        assert(x@.subrange(xa as int, xb as int).len() != y@.subrange(ya as int, yb as int).len());
        return false;
    }
    let n = xb - xa;
    let ghost xs = x@.subrange(xa as int, xb as int);
    let ghost ys = y@.subrange(ya as int, yb as int);
    let mut i: usize = 0;
    while i < n
        invariant
            xa <= xb <= x@.len(),
            ya <= yb <= y@.len(),
            xs == x@.subrange(xa as int, xb as int),
            ys == y@.subrange(ya as int, yb as int),
            n == xb - xa,
            n == yb - ya,
            0 <= i <= n,
            forall|j: int| 0 <= j < i ==> #[trigger] xs[j] == ys[j],
        decreases n - i,
    {
        assert(xs[i as int] == x@[xa + i]);
        assert(ys[i as int] == y@[ya + i]);
        if x[xa + i] != y[ya + i] {
            return false;
        }
        i = i + 1;
    }
    assert(xs =~= ys);
    true
}

/// Whether a line, full-width commas read as commas, is the pinyin header.
fn is_csv_header(chars: &Vec<char>, a: usize, b: usize) -> (ok: bool)
    requires
        a <= b <= chars@.len(),
    ensures
        ok == (ascii_commas(chars@.subrange(a as int, b as int)) == csv_header()),
{
    let header = "index,chinese_idiom,pinyin";
    proof {
        reveal_strlit("index,chinese_idiom,pinyin");
    }
    let ghost line = chars@.subrange(a as int, b as int);
    let n = header.unicode_len();
    if b - a != n {
        assert(ascii_commas(line).len() != csv_header().len());
        return false;
    }
    let mut i: usize = 0;
    while i < n
        invariant
            a <= b <= chars@.len(),
            n == b - a,
            n == header@.len(),
            header@ == csv_header(),
            line == chars@.subrange(a as int, b as int),
            0 <= i <= n,
            forall|j: int| 0 <= j < i ==> ascii_commas(line)[j] == header@[j],
        decreases n - i,
    {
        let c = chars[a + i];
        let c2 = if c == '\u{ff0c}' {
            ','
        } else {
            c
        };
        assert(ascii_commas(line)[i as int] == c2);
        if c2 != header.get_char(i) {
            return false;
        }
        i = i + 1;
    }
    assert(ascii_commas(line) =~= csv_header());
    true
}

/// The pinyin of a pinyin file that matches the idioms (given as ranges of
/// `txt`); `None` when it does not.
fn read_pinyin(csv: &str, txt: &Vec<char>, idioms: &Vec<(usize, usize)>) -> (pinyin: Option<Vec<String>>)
    requires
        ranges_ok(txt@, idioms@),
    ensures
        pinyin is Some <==> csv_valid(csv@, ranges_view(txt@, idioms@)),
        pinyin matches Some(p) ==> string_views(p@) == csv_pinyin(csv@),
{
    let ghost words = ranges_view(txt@, idioms@);
    let chars = chars_of(csv);
    let lines = line_ranges(&chars);
    let ghost ls = text_lines(csv@);
    assert(ls.len() == lines@.len());
    if lines.len() != 4097 {
        return None;
    }
    assert(ls[0] == chars@.subrange(lines@[0].0 as int, lines@[0].1 as int));
    if !is_csv_header(&chars, lines[0].0, lines[0].1) {
        return None;
    }
    let mut pinyin: Vec<String> = Vec::new();
    let mut k: usize = 0;
    while k < 4096
        invariant
            chars@ == csv@,
            ls == text_lines(csv@),
            ranges_ok(chars@, lines@),
            ranges_view(chars@, lines@) == ls,
            lines@.len() == 4097,
            ascii_commas(ls[0]) == csv_header(),
            ranges_ok(txt@, idioms@),
            words == ranges_view(txt@, idioms@),
            0 <= k <= 4096,
            forall|j: int| 0 <= j < k ==> #[trigger] csv_row_ok(ls[j + 1], j, words),
            string_views(pinyin@) =~= Seq::new(k as nat, |j: int| clean_field(split_by(ls[j + 1], field_sep())[2])),
        decreases 4096 - k,
    {
        let (ra, rb) = lines[k + 1];
        let ghost row = ls[k + 1];
        assert(row == chars@.subrange(ra as int, rb as int));
        let fields = split_ranges(&chars, ra, rb, true);
        let ghost f = split_by(row, field_sep());
        assert(ranges_view(chars@, fields@) == f);
        if fields.len() != 3 {
            assert(!csv_row_ok(row, k as int, words));
            return None;
        }
        assert(f[0] == chars@.subrange(fields@[0].0 as int, fields@[0].1 as int));
        assert(f[1] == chars@.subrange(fields@[1].0 as int, fields@[1].1 as int));
        assert(f[2] == chars@.subrange(fields@[2].0 as int, fields@[2].1 as int));
        let (a0, b0) = trim_range(&chars, fields[0].0, fields[0].1);
        if !reads_as_number(&chars, a0, b0, k) {
            assert(!csv_row_ok(row, k as int, words));
            return None;
        }
        if k >= idioms.len() {
            assert(words.len() == idioms@.len());
            assert(!csv_row_ok(row, k as int, words));
            return None;
        }
        let (a1, b1) = clean_range(&chars, fields[1].0, fields[1].1);
        assert(words[k as int] == txt@.subrange(idioms@[k as int].0 as int, idioms@[k as int].1 as int));
        if !ranges_equal(&chars, a1, b1, txt, idioms[k].0, idioms[k].1) {
            assert(!csv_row_ok(row, k as int, words));
            return None;
        }
        let (a2, b2) = clean_range(&chars, fields[2].0, fields[2].1);
        let p = string_of(&chars, a2, b2);
        let ghost before = string_views(pinyin@);
        pinyin.push(p);
        assert(string_views(pinyin@) =~= before.push(clean_field(f[2])));
        assert(csv_row_ok(row, k as int, words));
        k = k + 1;
    }
    assert(string_views(pinyin@) =~= csv_pinyin(csv@));
    Some(pinyin)
}

impl ChineseIdiomList {
    /// Build a wordlist from the text of the idiom file and, if there is
    /// one, of the pinyin file.
    ///
    /// Returns `None` unless the idiom file holds exactly 4096 lines, each a
    /// four-character idiom once trimmed, no two alike,
    /// and the pinyin file (if given) has the header and one row per idiom,
    /// giving its index and the same idiom.
    pub fn from_text(txt: &str, csv: Option<&str>) -> (list: Option<Self>)
        ensures
            list is Some <==> wordlist_files_valid(txt@, opt_view(csv)),
            list matches Some(l) ==> l.words() == file_idioms(txt@) && l.pinyins() == files_pinyin(
                opt_view(csv),
            ),
    {
        let tchars = chars_of(txt);
        let lines = line_ranges(&tchars);
        let ghost ls = text_lines(txt@);
        let mut idioms: Vec<String> = Vec::new();
        let mut ranges: Vec<(usize, usize)> = Vec::new();
        let mut k: usize = 0;
        while k < lines.len()
            invariant
                tchars@ == txt@,
                ls == text_lines(txt@),
                ranges_ok(tchars@, lines@),
                ranges_view(tchars@, lines@) == ls,
                0 <= k <= lines@.len(),
                ranges_ok(tchars@, ranges@),
                ranges_view(tchars@, ranges@) =~= ls.take(k as int).map_values(|l: Seq<char>| clean_field(l)),
                string_views(idioms@) =~= ls.take(k as int).map_values(|l: Seq<char>| clean_field(l)),
            decreases lines@.len() - k,
        {
            let (a, b) = lines[k];
            assert(ls[k as int] == tchars@.subrange(a as int, b as int));
            let (ca, cb) = clean_range(&tchars, a, b);
            let ghost rv = ranges_view(tchars@, ranges@);
            let ghost sv = string_views(idioms@);
            ranges.push((ca, cb));
            idioms.push(string_of(&tchars, ca, cb));
            proof {
                assert(ls.take(k + 1) =~= ls.take(k as int).push(ls[k as int]));
                assert(ranges_view(tchars@, ranges@) =~= rv.push(clean_field(ls[k as int])));
                assert(string_views(idioms@) =~= sv.push(clean_field(ls[k as int])));
            }
            k = k + 1;
        }
        proof {
            assert(ls.take(ls.len() as int) =~= ls);
            assert(ranges_view(tchars@, ranges@) == file_idioms(txt@));
            assert(string_views(idioms@) == file_idioms(txt@));
        }
        let ghost words = file_idioms(txt@);
        let pinyin = match csv {
            None => {
                let empty: Vec<String> = Vec::new();
                assert(string_views(empty@) =~= files_pinyin(opt_view(csv)));
                empty
            },
            Some(c) => match read_pinyin(c, &tchars, &ranges) {
                Some(p) => {
                    assert(csv_valid(c@, words));
                    assert(string_views(p@) == files_pinyin(opt_view(csv)));
                    assert(p@.len() == 4096);
                    p
                },
                None => {
                    assert(!wordlist_files_valid(txt@, opt_view(csv)));
                    return None;
                },
            },
        };
        assert(string_views(pinyin@) == files_pinyin(opt_view(csv)));
        assert(pinyin@.len() == 0 || pinyin@.len() == 4096);
        assert(match opt_view(csv) {
            None => true,
            Some(c) => csv_valid(c, words),
        });
        Self::from_idioms(idioms, pinyin)
    }
}

} // verus!
