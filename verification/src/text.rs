//! Text as sequences of characters: how a text falls into lines, into
//! whitespace-delimited tokens and into the segments of a path.

use vstd::prelude::*;

verus! {

/// `String::push` appends one character.
pub assume_specification[ String::push ](s: &mut String, ch: char)
    ensures
        final(s)@ == old(s)@.push(ch),
;

/// The characters with the Unicode property `White_Space`.
pub open spec fn is_whitespace(c: char) -> bool {
    let n = c as u32;
    ||| 0x09 <= n <= 0x0D
    ||| n == 0x20
    ||| n == 0x85
    ||| n == 0xA0
    ||| n == 0x1680
    ||| 0x2000 <= n <= 0x200A
    ||| n == 0x2028
    ||| n == 0x2029
    ||| n == 0x202F
    ||| n == 0x205F
    ||| n == 0x3000
}

/// What separates the pieces of a text.
#[derive(Debug, Clone, Copy, PartialEq, Eq, Structural)]
pub enum Separator {
    /// Any character with the property `White_Space`.
    Whitespace,
    /// The path separator `/`.
    Slash,
    /// The line feed.
    Newline,
    /// The space.
    Space,
}

impl Separator {
    /// Whether `c` is a separator of this kind.
    pub open spec fn splits(self, c: char) -> bool {
        match self {
            Separator::Whitespace => is_whitespace(c),
            Separator::Slash => c == '/',
            Separator::Newline => c == '\n',
            Separator::Space => c == ' ',
        }
    }

    pub fn separates(self, c: char) -> (b: bool)
        ensures
            b == self.splits(c),
    {
        match self {
            Separator::Whitespace => {
                let n: u32 = c as u32;
                (0x09 <= n && n <= 0x0D) || n == 0x20 || n == 0x85 || n == 0xA0 || n == 0x1680
                    || (0x2000 <= n && n <= 0x200A) || n == 0x2028 || n == 0x2029 || n == 0x202F
                    || n == 0x205F || n == 0x3000
            },
            Separator::Slash => c == '/',
            Separator::Newline => c == '\n',
            Separator::Space => c == ' ',
        }
    }
}

/// Where the piece that starts at `i` ends: the first index from `i` on that
/// holds a separator, or `to` if there is none before it.
pub open spec fn piece_end(s: Seq<char>, i: int, to: int, sep: Separator) -> int
    decreases to - i,
{
    if i >= to || sep.splits(s[i]) {
        i
    } else {
        piece_end(s, i + 1, to, sep)
    }
}

/// `piece_end` is the least index from `i` on that is `to` or holds a separator.
pub proof fn lemma_piece_end(s: Seq<char>, i: int, to: int, sep: Separator)
    requires
        i <= to,
    ensures
        i <= piece_end(s, i, to, sep) <= to,
        forall|k: int| i <= k < piece_end(s, i, to, sep) ==> !sep.splits(#[trigger] s[k]),
        piece_end(s, i, to, sep) < to ==> sep.splits(s[piece_end(s, i, to, sep)]),
    decreases to - i,
{
    if i < to && !sep.splits(s[i]) {
        lemma_piece_end(s, i + 1, to, sep);
    }
}

/// The non-empty pieces of `s` from `i` on, each as the range of indices
/// `[start, end)` that it takes in `s`.
pub open spec fn field_ranges(s: Seq<char>, i: int, sep: Separator) -> Seq<(int, int)>
    decreases s.len() - i,
    via field_ranges_decreases
{
    if i >= s.len() {
        Seq::empty()
    } else if sep.splits(s[i]) {
        field_ranges(s, i + 1, sep)
    } else {
        let end = piece_end(s, i, s.len() as int, sep);
        seq![(i, end)] + field_ranges(s, end, sep)
    }
}

#[via_fn]
proof fn field_ranges_decreases(s: Seq<char>, i: int, sep: Separator) {
    if i < s.len() && !sep.splits(s[i]) {
        lemma_piece_end(s, i + 1, s.len() as int, sep);
    }
}

/// The lines of `s` from `i` on, each as a range of indices of `s`. A line
/// ends before a line feed or at the end of the text; a line feed at the very
/// end opens no further line.
pub open spec fn line_ranges(s: Seq<char>, i: int) -> Seq<(int, int)>
    decreases s.len() + 1 - i,
    via line_ranges_decreases
{
    if i >= s.len() {
        Seq::empty()
    } else {
        let end = piece_end(s, i, s.len() as int, Separator::Newline);
        seq![(i, end)] + line_ranges(s, end + 1)
    }
}

#[via_fn]
proof fn line_ranges_decreases(s: Seq<char>, i: int) {
    if i < s.len() {
        lemma_piece_end(s, i, s.len() as int, Separator::Newline);
    }
}

/// The texts that the ranges `ranges` cut out of `s`.
pub open spec fn cut(s: Seq<char>, ranges: Seq<(int, int)>) -> Seq<Seq<char>> {
    Seq::new(ranges.len(), |k: int| s.subrange(ranges[k].0, ranges[k].1))
}

/// The maximal runs of characters of `s` that hold no separator, in order.
pub open spec fn fields(s: Seq<char>, sep: Separator) -> Seq<Seq<char>> {
    cut(s, field_ranges(s, 0, sep))
}

/// The whitespace-delimited tokens of `s`.
pub open spec fn tokens(s: Seq<char>) -> Seq<Seq<char>> {
    fields(s, Separator::Whitespace)
}

/// The segments of the path `s`: what stands between its separators, empty
/// segments left out.
pub open spec fn segments(s: Seq<char>) -> Seq<Seq<char>> {
    fields(s, Separator::Slash)
}

/// The lines of `s`.
pub open spec fn lines(s: Seq<char>) -> Seq<Seq<char>> {
    cut(s, line_ranges(s, 0))
}

/// The ranges held by a vector of index pairs.
pub open spec fn as_ranges(v: Seq<(usize, usize)>) -> Seq<(int, int)> {
    Seq::new(v.len(), |k: int| (v[k].0 as int, v[k].1 as int))
}

/// The characters of `s`, in order.
pub fn chars_of(s: &str) -> (v: Vec<char>)
    ensures
        v@ == s@,
{
    broadcast use vstd::string::group_string_axioms;

    let mut v: Vec<char> = Vec::new();
    for c in it: s.chars()
        invariant
            it.seq() == s@,
            v@ == s@.take(it.index() as int),
    {
        v.push(c);
    }
    v
}

/// The string made of `v[from..to]`.
pub fn string_of(v: &Vec<char>, from: usize, to: usize) -> (s: String)
    requires
        from <= to <= v.len(),
    ensures
        s@ == v@.subrange(from as int, to as int),
{
    let mut s = String::new();
    let mut i: usize = from;
    while i < to
        invariant
            from <= i <= to <= v.len(),
            s@ == v@.subrange(from as int, i as int),
        decreases to - i,
    {
        s.push(v[i]);
        i += 1;
    }
    s
}

/// The vector made of `v[from..to]`.
pub fn slice_of(v: &Vec<char>, from: usize, to: usize) -> (part: Vec<char>)
    requires
        from <= to <= v.len(),
    ensures
        part@ == v@.subrange(from as int, to as int),
{
    let mut part: Vec<char> = Vec::new();
    let mut i: usize = from;
    while i < to
        invariant
            from <= i <= to <= v.len(),
            part@ == v@.subrange(from as int, i as int),
        decreases to - i,
    {
        part.push(v[i]);
        i += 1;
    }
    part
}

/// The end of the piece of `v` that starts at `from`.
pub fn find_piece_end(v: &Vec<char>, from: usize, sep: Separator) -> (end: usize)
    requires
        from <= v.len(),
    ensures
        end == piece_end(v@, from as int, v.len() as int, sep),
        from <= end <= v.len(),
{
    let mut j: usize = from;
    while j < v.len() && !sep.separates(v[j])
        invariant
            from <= j <= v.len(),
            piece_end(v@, from as int, v.len() as int, sep) == piece_end(
                v@,
                j as int,
                v.len() as int,
                sep,
            ),
        decreases v.len() - j,
    {
        j += 1;
    }
    j
}

/// Splits `v` into its non-empty pieces between separators.
pub fn split_fields(v: &Vec<char>, sep: Separator) -> (ranges: Vec<(usize, usize)>)
    ensures
        as_ranges(ranges@) == field_ranges(v@, 0, sep),
        forall|k: int|
            0 <= k < ranges.len() ==> (#[trigger] ranges[k]).0 < ranges[k].1 <= v.len(),
{
    let mut ranges: Vec<(usize, usize)> = Vec::new();
    let mut i: usize = 0;
    while i < v.len()
        invariant
            i <= v.len(),
            field_ranges(v@, 0, sep) == as_ranges(ranges@) + field_ranges(v@, i as int, sep),
            forall|k: int|
                0 <= k < ranges.len() ==> (#[trigger] ranges[k]).0 < ranges[k].1 <= v.len(),
        decreases v.len() - i,
    {
        if sep.separates(v[i]) {
            i += 1;
        } else {
            let end = find_piece_end(v, i, sep);
            proof {
                lemma_piece_end(v@, i as int + 1, v.len() as int, sep);
                assert(as_ranges(ranges@.push((i, end))) == as_ranges(ranges@).push(
                    (i as int, end as int),
                ));
                assert(as_ranges(ranges@).push((i as int, end as int)) + field_ranges(
                    v@,
                    end as int,
                    sep,
                ) == as_ranges(ranges@) + (seq![(i as int, end as int)] + field_ranges(
                    v@,
                    end as int,
                    sep,
                )));
            }
            ranges.push((i, end));
            i = end;
        }
    }
    ranges
}

/// Splits `v` into its lines.
pub fn split_lines(v: &Vec<char>) -> (ranges: Vec<(usize, usize)>)
    ensures
        as_ranges(ranges@) == line_ranges(v@, 0),
        forall|k: int|
            0 <= k < ranges.len() ==> (#[trigger] ranges[k]).0 <= ranges[k].1 <= v.len(),
{
    let mut ranges: Vec<(usize, usize)> = Vec::new();
    let mut i: usize = 0;
    while i < v.len()
        invariant
            i <= v.len(),
            line_ranges(v@, 0) == as_ranges(ranges@) + line_ranges(v@, i as int),
            forall|k: int|
                0 <= k < ranges.len() ==> (#[trigger] ranges[k]).0 <= ranges[k].1 <= v.len(),
        decreases v.len() - i,
    {
        let end = find_piece_end(v, i, Separator::Newline);
        proof {
            assert(as_ranges(ranges@.push((i, end))) == as_ranges(ranges@).push(
                (i as int, end as int),
            ));
            assert(as_ranges(ranges@).push((i as int, end as int)) + line_ranges(
                v@,
                end as int + 1,
            ) == as_ranges(ranges@) + (seq![(i as int, end as int)] + line_ranges(
                v@,
                end as int + 1,
            )));
        }
        ranges.push((i, end));
        if end < v.len() {
            i = end + 1;
        } else {
            i = end;
        }
    }
    ranges
}

} // verus!
