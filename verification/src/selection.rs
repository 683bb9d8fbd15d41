//! The operator's answer to a plan: all of it, none of it, or the entries
//! picked by their numbers.

use vstd::prelude::*;
use crate::text::{chars_of, find_piece_end, is_whitespace, piece_end, slice_of, Separator};

verus! {

/// `s` without the whitespace at its start and at its end.
pub open spec fn trimmed(s: Seq<char>) -> Seq<char>
    decreases s.len(),
{
    if s.len() == 0 {
        s
    } else if is_whitespace(s[0]) {
        trimmed(s.drop_first())
    } else if is_whitespace(s.last()) {
        trimmed(s.drop_last())
    } else {
        s
    }
}

/// `trimmed` is what lies between the first and the last character that is
/// no whitespace.
pub proof fn lemma_trimmed(s: Seq<char>, from: int, to: int)
    requires
        0 <= from <= to <= s.len(),
        forall|k: int| 0 <= k < from ==> is_whitespace(#[trigger] s[k]),
        forall|k: int| to <= k < s.len() ==> is_whitespace(#[trigger] s[k]),
        from < to ==> !is_whitespace(s[from]) && !is_whitespace(s[to - 1]),
    ensures
        trimmed(s) == s.subrange(from, to),
    decreases s.len(),
{
    if s.len() == 0 {
        assert(s.subrange(from, to) =~= s);
    } else if is_whitespace(s[0]) {
        let rest = s.drop_first();
        if from >= 1 {
            assert forall|k: int| 0 <= k < from - 1 implies is_whitespace(#[trigger] rest[k]) by {
                assert(rest[k] == s[k + 1]);
            }
            assert forall|k: int| to - 1 <= k < rest.len() implies is_whitespace(
                #[trigger] rest[k],
            ) by {
                assert(rest[k] == s[k + 1]);
            }
            lemma_trimmed(rest, from - 1, to - 1);
            assert(rest.subrange(from - 1, to - 1) =~= s.subrange(from, to));
        } else {
            assert(to == 0);
            assert forall|k: int| 0 <= k < rest.len() implies is_whitespace(#[trigger] rest[k]) by {
                assert(rest[k] == s[k + 1]);
            }
            lemma_trimmed(rest, 0, 0);
            assert(rest.subrange(0, 0) =~= s.subrange(from, to));
        }
    } else {
        assert(from == 0);
        assert(from < to) by {
            if from == to {
                assert(is_whitespace(s[0]));
            }
        }
        if is_whitespace(s.last()) {
            let rest = s.drop_last();
            assert(to <= s.len() - 1);
            assert forall|k: int| to <= k < rest.len() implies is_whitespace(#[trigger] rest[k]) by {
                assert(rest[k] == s[k]);
            }
            lemma_trimmed(rest, from, to);
            assert(rest.subrange(from, to) =~= s.subrange(from, to));
        } else {
            assert(to == s.len()) by {
                if to < s.len() {
                    assert(is_whitespace(s[s.len() - 1]));
                }
            }
            assert(s.subrange(from, to) =~= s);
        }
    }
}

/// The words of `s` from `i` on, as ranges of indices: what single spaces
/// delimit. Two spaces in a row delimit an empty word, and so does a space
/// at either end.
pub open spec fn word_ranges(s: Seq<char>, i: int) -> Seq<(int, int)>
    decreases s.len() + 1 - i,
    via word_ranges_decreases
{
    if i > s.len() || i < 0 {
        Seq::empty()
    } else {
        let end = piece_end(s, i, s.len() as int, Separator::Space);
        seq![(i, end)] + word_ranges(s, end + 1)
    }
}

#[via_fn]
proof fn word_ranges_decreases(s: Seq<char>, i: int) {
    if 0 <= i <= s.len() {
        crate::text::lemma_piece_end(s, i, s.len() as int, Separator::Space);
    }
}

/// The words of `s`.
pub open spec fn words(s: Seq<char>) -> Seq<Seq<char>> {
    crate::text::cut(s, word_ranges(s, 0))
}

/// Whether `c` is a decimal digit.
pub open spec fn is_digit(c: char) -> bool {
    '0' <= c && c <= '9'
}

/// The number that the decimal digits `s` write.
pub open spec fn digits_value(s: Seq<char>) -> nat
    decreases s.len(),
{
    if s.len() == 0 {
        0
    } else {
        (10 * digits_value(s.drop_last()) + (s.last() as u32 - '0' as u32)) as nat
    }
}

/// The digits of a number: the text without a plus sign in front.
pub open spec fn unsigned(s: Seq<char>) -> Seq<char> {
    if s.len() > 0 && s[0] == '+' {
        s.drop_first()
    } else {
        s
    }
}

/// The number that `s` writes: decimal digits, at least one, with or
/// without a plus sign in front.
pub open spec fn number(s: Seq<char>) -> Option<nat> {
    let digits = unsigned(s);
    if digits.len() > 0 && (forall|i: int| 0 <= i < digits.len() ==> is_digit(#[trigger] digits[i])) {
        Some(digits_value(digits))
    } else {
        None
    }
}

/// Whether `word` is the number of one of `count` entries, counted from 1.
pub open spec fn picks(word: Seq<char>, count: nat) -> bool {
    number(word) matches Some(n) && 1 <= n <= count
}

/// What the operator chose, with the entries by their indices from 0.
pub enum Choice {
    /// Transfer these entries, in this order.
    Proceed(Seq<int>),
    /// Transfer nothing.
    Cancelled,
    /// The answer cannot be read.
    Invalid,
}

/// What the operator chose.
#[derive(Debug)]
pub enum Selection {
    /// Transfer the entries with these indices, in this order.
    Proceed(Vec<usize>),
    /// Transfer nothing.
    Cancelled,
    /// The answer cannot be read.
    Invalid,
}

impl View for Selection {
    type V = Choice;

    open spec fn view(&self) -> Choice {
        match self {
            Selection::Proceed(picked) => Choice::Proceed(
                Seq::new(picked@.len(), |i: int| picked@[i] as int),
            ),
            Selection::Cancelled => Choice::Cancelled,
            Selection::Invalid => Choice::Invalid,
        }
    }
}

/// What the answer `answer` to a plan of `count` entries chooses. Whitespace
/// around the answer does not count. `y` or `Y` takes every entry, `n` or
/// `N` none. Any other answer is a list of numbers from 1 to `count` with
/// single spaces between them, and takes the entries with these numbers in
/// the order of the list; it is invalid where a word is no such number.
pub open spec fn chosen(answer: Seq<char>, count: nat) -> Choice {
    let t = trimmed(answer);
    if t == seq!['y'] || t == seq!['Y'] {
        Choice::Proceed(Seq::new(count, |i: int| i))
    } else if t == seq!['n'] || t == seq!['N'] {
        Choice::Cancelled
    } else if forall|i: int| 0 <= i < words(t).len() ==> picks(#[trigger] words(t)[i], count) {
        Choice::Proceed(Seq::new(words(t).len(), |i: int| number(words(t)[i])->0 - 1))
    } else {
        Choice::Invalid
    }
}

/// The value of digits does not shrink as more digits follow.
proof fn lemma_digits_value_grows(s: Seq<char>, k: int)
    requires
        0 <= k <= s.len(),
        forall|i: int| 0 <= i < s.len() ==> is_digit(#[trigger] s[i]),
    ensures
        digits_value(s.take(k)) <= digits_value(s),
    decreases s.len() - k,
{
    if k < s.len() {
        lemma_digits_value_grows(s, k + 1);
        assert(s.take(k + 1).drop_last() =~= s.take(k));
        assert(is_digit(s[k]));
        assert(s.take(k + 1).last() == s[k]);
    } else {
        assert(s.take(k) =~= s);
    }
}

/// Reads the word `v[from..to]` as the number of one of `count` entries.
fn read_pick(v: &Vec<char>, from: usize, to: usize, count: usize) -> (pick: Option<usize>)
    requires
        from <= to <= v.len(),
    ensures
        match pick {
            Some(n) => picks(v@.subrange(from as int, to as int), count as nat) && number(
                v@.subrange(from as int, to as int),
            ) == Some(n as nat),
            None => !picks(v@.subrange(from as int, to as int), count as nat),
        },
{
    let ghost word = v@.subrange(from as int, to as int);
    let start = if from < to && v[from] == '+' {
        from + 1
    } else {
        from
    };
    let ghost digits = unsigned(word);
    assert(from < to ==> word[0] == v@[from as int]);
    assert(digits =~= v@.subrange(start as int, to as int));
    if start == to {
        return None;
    }
    let mut value: usize = 0;
    let mut i: usize = start;
    while i < to
        invariant
            start <= i <= to <= v.len(),
            word == v@.subrange(from as int, to as int),
            digits == unsigned(word),
            digits == v@.subrange(start as int, to as int),
            forall|k: int| 0 <= k < i - start ==> is_digit(#[trigger] digits[k]),
            value == digits_value(digits.take(i - start)),
            value <= count,
        decreases to - i,
    {
        let c = v[i];
        assert(digits[i - start] == c);
        if !('0' <= c && c <= '9') {
            return None;
        }
        let d: u128 = (c as u32 - '0' as u32) as u128;
        let next: u128 = 10 * (value as u128) + d;
        proof {
            assert(digits.take(i + 1 - start).drop_last() =~= digits.take(i - start));
            assert(digits.take(i + 1 - start).last() == c);
            assert(next == digits_value(digits.take(i + 1 - start)));
        }
        if next > count as u128 {
            proof {
                if forall|k: int| 0 <= k < digits.len() ==> is_digit(#[trigger] digits[k]) {
                    lemma_digits_value_grows(digits, i + 1 - start);
                }
            }
            return None;
        }
        value = next as usize;
        i += 1;
    }
    assert(digits.take(to - start) =~= digits);
    if value == 0 {
        None
    } else {
        Some(value)
    }
}

/// Reads the operator's answer to a plan of `count` entries.
pub fn select(answer: &str, count: usize) -> (selection: Selection)
    ensures
        selection@ == chosen(answer@, count as nat),
{
    let all = chars_of(answer);
    let mut from: usize = 0;
    while from < all.len() && Separator::Whitespace.separates(all[from])
        invariant
            from <= all.len(),
            forall|k: int| 0 <= k < from ==> is_whitespace(#[trigger] all@[k]),
        decreases all.len() - from,
    {
        from += 1;
    }
    let mut to: usize = all.len();
    while to > from && Separator::Whitespace.separates(all[to - 1])
        invariant
            from <= to <= all.len(),
            forall|k: int| to <= k < all.len() ==> is_whitespace(#[trigger] all@[k]),
        decreases to,
    {
        to -= 1;
    }
    proof {
        lemma_trimmed(all@, from as int, to as int);
    }
    let t = slice_of(&all, from, to);
    assert(t@ == trimmed(answer@));
    if t.len() == 1 {
        if t[0] == 'y' || t[0] == 'Y' {
            let mut every: Vec<usize> = Vec::new();
            let mut i: usize = 0;
            while i < count
                invariant
                    i <= count,
                    every.len() == i,
                    forall|k: int| 0 <= k < i ==> every[k] == k,
                decreases count - i,
            {
                every.push(i);
                i += 1;
            }
            assert(t@ =~= seq![t@[0]]);
            let selection = Selection::Proceed(every);
            assert(selection@ matches Choice::Proceed(p) && p =~= Seq::new(
                count as nat,
                |i: int| i,
            ));
            return selection;
        }
        if t[0] == 'n' || t[0] == 'N' {
            assert(t@ =~= seq![t@[0]]);
            return Selection::Cancelled;
        }
    }
    assert(t@ != seq!['y'] && t@ != seq!['Y'] && t@ != seq!['n'] && t@ != seq!['N']) by {
        if t@.len() == 1 {
            assert(seq!['y'][0] == 'y');
            assert(seq!['Y'][0] == 'Y');
            assert(seq!['n'][0] == 'n');
            assert(seq!['N'][0] == 'N');
        } else {
            assert(seq!['y'].len() == 1);
            assert(seq!['Y'].len() == 1);
            assert(seq!['n'].len() == 1);
            assert(seq!['N'].len() == 1);
        }
    }
    let ghost ranges = word_ranges(t@, 0);
    let ghost all_words = words(t@);
    let mut picked: Vec<usize> = Vec::new();
    let ghost mut done: Seq<(int, int)> = Seq::empty();
    let mut i: usize = 0;
    let mut more = true;
    while more
        invariant
            i <= t.len(),
            ranges == word_ranges(t@, 0),
            all_words == words(t@),
            t@ == trimmed(answer@),
            t@ != seq!['y'] && t@ != seq!['Y'] && t@ != seq!['n'] && t@ != seq!['N'],
            more ==> ranges == done + word_ranges(t@, i as int),
            !more ==> ranges == done,
            picked.len() == done.len(),
            forall|k: int| 0 <= k < done.len() ==> picks(#[trigger] all_words[k], count as nat),
            forall|k: int|
                0 <= k < done.len() ==> number(all_words[k]) == Some((#[trigger] picked[k] + 1) as nat),
        ensures
            !more,
        decreases
                t.len() + 1 - i,
                (if more {
                    1int
                } else {
                    0int
                }),
    {
        let end = find_piece_end(&t, i, Separator::Space);
        proof {
            assert(word_ranges(t@, i as int) == seq![(i as int, end as int)] + word_ranges(
                t@,
                end as int + 1,
            ));
            assert(ranges =~= done.push((i as int, end as int)) + word_ranges(t@, end as int + 1));
            assert(ranges[done.len() as int] == (i as int, end as int));
            assert(all_words[done.len() as int] == t@.subrange(i as int, end as int));
        }
        match read_pick(&t, i, end, count) {
            None => {
                return Selection::Invalid;
            },
            Some(n) => {
                picked.push(n - 1);
            },
        }
        proof {
            done = done.push((i as int, end as int));
        }
        if end < t.len() {
            i = end + 1;
        } else {
            more = false;
            assert(word_ranges(t@, end as int + 1) =~= Seq::<(int, int)>::empty());
        }
    }
    let selection = Selection::Proceed(picked);
    assert(selection@ matches Choice::Proceed(p) && p =~= Seq::new(
        all_words.len(),
        |k: int| number(all_words[k])->0 - 1,
    ));
    selection
}

} // verus!
