//! From a commit specifier to the paths that changed: what the specifier
//! names, in which order a range is diffed, and what the backend's listing
//! of changes holds.

use vstd::prelude::*;
use vstd::string::StringSliceAdditionalSpecFns;
use vstd::utf8::{decode_utf8, valid_utf8};
use crate::changeset::ChangeSet;
use crate::error::{ErrorKind, GsyncError};
use crate::text::{chars_of, lines, slice_of, split_fields, split_lines, string_of, tokens, Separator};

verus! {

/// An error that `core::str::from_utf8` gives for bytes that are no UTF-8.
#[verifier::external_type_specification]
#[verifier::external_body]
pub struct ExUtf8Error(core::str::Utf8Error);

/// `core::str::from_utf8` accepts exactly the byte strings that are valid
/// UTF-8, and hands back the string slice made of those bytes.
pub assume_specification[ core::str::from_utf8 ](v: &[u8]) -> (r: Result<
    &str,
    core::str::Utf8Error,
>)
    ensures
        r.is_ok() == valid_utf8(v@),
        r matches Ok(s) ==> s.spec_bytes() == v@,
;

/// What a commit specifier names, as texts.
pub enum Specifier {
    /// One reference: the change that this commit made.
    Single(Seq<char>),
    /// Two references: the change from one to the other.
    Range(Seq<char>, Seq<char>),
}

/// What a commit specifier names: one reference, or two that are both not
/// empty.
#[derive(Debug)]
pub enum CommitSpecifier {
    Single(String),
    Range(String, String),
}

impl View for CommitSpecifier {
    type V = Specifier;

    open spec fn view(&self) -> Specifier {
        match self {
            CommitSpecifier::Single(c) => Specifier::Single(c@),
            CommitSpecifier::Range(c1, c2) => Specifier::Range(c1@, c2@),
        }
    }
}

/// Where the first `..` of `s` from `i` on starts, or `s.len()` where there
/// is none.
pub open spec fn range_mark(s: Seq<char>, i: int) -> int
    decreases s.len() - i,
{
    if i + 1 >= s.len() {
        s.len() as int
    } else if s[i] == '.' && s[i + 1] == '.' {
        i
    } else {
        range_mark(s, i + 1)
    }
}

/// `range_mark` lies at or after `i`, and leaves room for the two dots.
pub proof fn lemma_range_mark(s: Seq<char>, i: int)
    requires
        0 <= i <= s.len(),
    ensures
        i <= range_mark(s, i) <= s.len(),
        range_mark(s, i) < s.len() ==> range_mark(s, i) + 2 <= s.len(),
    decreases s.len() - i,
{
    if i + 1 < s.len() && !(s[i] == '.' && s[i + 1] == '.') {
        lemma_range_mark(s, i + 1);
    }
}

/// The parts of `s` from `i` on that the separator `..` delimits, read from
/// the left: `a...b` falls into `a` and `.b`.
pub open spec fn range_parts(s: Seq<char>, i: int) -> Seq<Seq<char>>
    decreases s.len() - i,
    via range_parts_decreases
{
    if i > s.len() || i < 0 {
        Seq::empty()
    } else {
        let mark = range_mark(s, i);
        if mark >= s.len() {
            seq![s.subrange(i, s.len() as int)]
        } else {
            seq![s.subrange(i, mark)] + range_parts(s, mark + 2)
        }
    }
}

#[via_fn]
proof fn range_parts_decreases(s: Seq<char>, i: int) {
    if 0 <= i <= s.len() {
        lemma_range_mark(s, i);
    }
}

/// What the specifier `raw` names: `Ok(None)` for the bare separator `..`,
/// which names nothing, and the error where `raw` falls into more than two
/// parts or into two of which exactly one is empty.
pub open spec fn parsed_commit(raw: Seq<char>) -> Result<Option<Specifier>, ErrorKind> {
    let parts = range_parts(raw, 0);
    if parts.len() == 1 {
        Ok(Some(Specifier::Single(raw)))
    } else if parts.len() == 2 && parts[0].len() == 0 && parts[1].len() == 0 {
        Ok(None)
    } else if parts.len() == 2 && parts[0].len() > 0 && parts[1].len() > 0 {
        Ok(Some(Specifier::Range(parts[0], parts[1])))
    } else {
        Err(ErrorKind::InvalidSpecifierFormat)
    }
}

/// Finds the first `..` of `v` from `from` on.
fn find_range_mark(v: &Vec<char>, from: usize) -> (mark: usize)
    requires
        from <= v.len(),
    ensures
        mark == range_mark(v@, from as int),
        from <= mark <= v.len(),
        mark < v.len() ==> mark + 2 <= v.len(),
{
    let mut j: usize = from;
    while j < v.len() && j + 1 < v.len() && !(v[j] == '.' && v[j + 1] == '.')
        invariant
            from <= j <= v.len(),
            range_mark(v@, from as int) == range_mark(v@, j as int),
        decreases v.len() - j,
    {
        j += 1;
    }
    if j < v.len() && j + 1 < v.len() {
        j
    } else {
        v.len()
    }
}

/// Reads a commit specifier: a reference, or two references with `..`
/// between them.
pub fn parse_commit(raw: &str) -> (parsed: Result<Option<CommitSpecifier>, GsyncError>)
    ensures
        match parsed {
            Ok(Some(specifier)) => parsed_commit(raw@) == Ok::<Option<Specifier>, ErrorKind>(
                Some(specifier@),
            ),
            Ok(None) => parsed_commit(raw@) == Ok::<Option<Specifier>, ErrorKind>(None),
            Err(error) => parsed_commit(raw@) == Err::<Option<Specifier>, ErrorKind>(
                ErrorKind::InvalidSpecifierFormat,
            ) && error == GsyncError::Custom(ErrorKind::InvalidSpecifierFormat),
        },
{
    let chars = chars_of(raw);
    let n = chars.len();
    let first = find_range_mark(&chars, 0);
    if first >= n {
        assert(chars@.subrange(0, n as int) =~= raw@);
        return Ok(Some(CommitSpecifier::Single(raw.to_owned())));
    }
    let second = find_range_mark(&chars, first + 2);
    let ghost rest = range_parts(chars@, first as int + 2);
    assert(range_parts(chars@, 0) == seq![chars@.subrange(0, first as int)] + rest);
    if second < n {
        proof {
            lemma_range_parts_not_empty(chars@, second as int + 2);
            assert(rest == seq![chars@.subrange(first as int + 2, second as int)] + range_parts(
                chars@,
                second as int + 2,
            ));
        }
        return Err(GsyncError::Custom(ErrorKind::InvalidSpecifierFormat));
    }
    assert(rest == seq![chars@.subrange(first as int + 2, n as int)]);
    assert(range_parts(chars@, 0) =~= seq![
        chars@.subrange(0, first as int),
        chars@.subrange(first as int + 2, n as int),
    ]);
    if first == 0 && first + 2 == n {
        Ok(None)
    } else if first > 0 && first + 2 < n {
        let c1 = string_of(&chars, 0, first);
        let c2 = string_of(&chars, first + 2, n);
        Ok(Some(CommitSpecifier::Range(c1, c2)))
    } else {
        Err(GsyncError::Custom(ErrorKind::InvalidSpecifierFormat))
    }
}

/// From any index within `s` on there is at least one part.
pub proof fn lemma_range_parts_not_empty(s: Seq<char>, i: int)
    requires
        0 <= i <= s.len(),
    ensures
        range_parts(s, i).len() >= 1,
{
    lemma_range_mark(s, i);
}

/// What the backend said of two references: whether the first is an
/// ancestor of the second.
#[derive(Debug, Clone, Copy, PartialEq, Eq, Structural)]
pub enum Ancestry {
    /// The first is an ancestor of the second.
    Ancestor,
    /// It is not.
    NotAncestor,
    /// The backend could not be asked.
    Unknown,
}

/// The references `c1` and `c2` as (older, newer): swapped where the backend
/// denied that `c1` is an ancestor of `c2`, as given otherwise.
pub open spec fn sorted_commits(c1: Seq<char>, c2: Seq<char>, ancestry: Ancestry) -> (
    Seq<char>,
    Seq<char>,
) {
    if ancestry == Ancestry::NotAncestor {
        (c2, c1)
    } else {
        (c1, c2)
    }
}

/// Orders two references by ancestry.
pub fn sort_commits<'a>(c1: &'a str, c2: &'a str, ancestry: Ancestry) -> (sorted: (
    &'a str,
    &'a str,
))
    ensures
        (sorted.0@, sorted.1@) == sorted_commits(c1@, c2@, ancestry),
{
    match ancestry {
        Ancestry::NotAncestor => (c2, c1),
        _ => (c1, c2),
    }
}

/// Two references come out in the same order whichever is given first:
/// `forth` is the backend's answer for `(a, b)`, `back` its answer for
/// `(b, a)`. This holds where the backend denies exactly one of the two, and
/// where both references are the same text.
pub proof fn lemma_sort_commits_symmetric(
    a: Seq<char>,
    b: Seq<char>,
    forth: Ancestry,
    back: Ancestry,
)
    requires
        a == b || (forth == Ancestry::NotAncestor) != (back == Ancestry::NotAncestor),
    ensures
        sorted_commits(a, b, forth) == sorted_commits(b, a, back),
{
}

/// The two states that the backend is to compare.
#[derive(Debug)]
pub struct DiffQuery {
    pub from: String,
    pub to: String,
}

impl Specifier {
    /// Whether the order of the references has to be asked of the backend.
    pub open spec fn is_range(self) -> bool {
        self is Range
    }

    /// The states to compare: a single commit against its parent, written
    /// with `~` behind the reference; a range from its older to its newer
    /// end.
    pub open spec fn endpoints(self, ancestry: Ancestry) -> (Seq<char>, Seq<char>) {
        match self {
            Specifier::Single(c) => (c.push('~'), c),
            Specifier::Range(c1, c2) => sorted_commits(c1, c2, ancestry),
        }
    }
}

impl CommitSpecifier {
    /// Whether the order of the references has to be asked of the backend.
    pub fn is_range(&self) -> (range: bool)
        ensures
            range == self@.is_range(),
    {
        match self {
            CommitSpecifier::Single(_) => false,
            CommitSpecifier::Range(_, _) => true,
        }
    }

    /// The comparison that yields this specifier's changes. `ancestry` is
    /// the backend's answer for the two references of a range, in the order
    /// in which the specifier holds them; a single reference ignores it.
    pub fn diff_query(&self, ancestry: Ancestry) -> (query: DiffQuery)
        ensures
            (query.from@, query.to@) == self@.endpoints(ancestry),
    {
        match self {
            CommitSpecifier::Single(c) => {
                let mut from = c.clone();
                from.push('~');
                DiffQuery { from, to: c.clone() }
            },
            CommitSpecifier::Range(c1, c2) => {
                let (older, newer) = sort_commits(c1.as_str(), c2.as_str(), ancestry);
                DiffQuery { from: older.to_owned(), to: newer.to_owned() }
            },
        }
    }
}

/// What kind of change a line of the backend's listing reports.
#[derive(Debug, Clone, Copy, PartialEq, Eq, Structural)]
pub enum ChangeStatus {
    Added,
    Modified,
    Deleted,
    /// Renamed with the content unchanged (`R100`).
    RenamedNoContentChange,
    /// Renamed and changed (any other code that starts with `R`).
    RenamedWithContentChange,
    /// Any other code.
    Other,
}

impl ChangeStatus {
    /// Whether the line names an old and a new path.
    pub open spec fn is_rename(self) -> bool {
        self == ChangeStatus::RenamedNoContentChange || self
            == ChangeStatus::RenamedWithContentChange
    }

    /// Whether there is content to transfer.
    pub open spec fn is_synced(self) -> bool {
        self != ChangeStatus::Deleted && self != ChangeStatus::RenamedNoContentChange
    }
}

/// The status that a status code stands for.
pub open spec fn status_of(code: Seq<char>) -> ChangeStatus {
    if code == seq!['D'] {
        ChangeStatus::Deleted
    } else if code == seq!['R', '1', '0', '0'] {
        ChangeStatus::RenamedNoContentChange
    } else if code.len() > 0 && code[0] == 'R' {
        ChangeStatus::RenamedWithContentChange
    } else if code == seq!['A'] {
        ChangeStatus::Added
    } else if code == seq!['M'] {
        ChangeStatus::Modified
    } else {
        ChangeStatus::Other
    }
}

/// One line of the backend's listing, as texts.
pub struct Record {
    pub status: ChangeStatus,
    /// The path that the line reports; for a rename, the new one.
    pub path: Seq<char>,
    /// For a rename, the path before.
    pub old_path: Option<Seq<char>>,
}

impl Record {
    /// The path to transfer, if the record calls for any.
    pub open spec fn synced_path(self) -> Option<Seq<char>> {
        if self.status.is_synced() {
            Some(self.path)
        } else {
            None
        }
    }

    /// Whether the record speaks of `path`, as its path or as its old
    /// path.
    pub open spec fn names(self, path: Seq<char>) -> bool {
        self.path == path || self.old_path == Some(path)
    }
}

/// One line of the backend's listing.
#[derive(Debug)]
pub struct ChangeRecord {
    pub status: ChangeStatus,
    pub path: String,
    pub old_path: Option<String>,
}

impl View for ChangeRecord {
    type V = Record;

    open spec fn view(&self) -> Record {
        Record {
            status: self.status,
            path: self.path@,
            old_path: match self.old_path {
                Some(old) => Some(old@),
                None => None,
            },
        }
    }
}

impl ChangeRecord {
    /// The path to transfer, if the record calls for any: none for a
    /// deletion and for a rename without change, the new path for any
    /// other rename, the path for every other status.
    pub fn synced_path(&self) -> (path: Option<&String>)
        ensures
            match path {
                Some(p) => self@.synced_path() == Some(p@),
                None => self@.synced_path() is None,
            },
    {
        match self.status {
            ChangeStatus::Deleted => None,
            ChangeStatus::RenamedNoContentChange => None,
            _ => Some(&self.path),
        }
    }
}

/// What a line of the listing reports: its first token is the status code,
/// the next one the path, or for a rename the next two the old and the new
/// path. `None` where a token that the status calls for is missing.
pub open spec fn record_of(line: Seq<char>) -> Option<Record> {
    let t = tokens(line);
    if t.len() == 0 {
        None
    } else if status_of(t[0]).is_rename() {
        if t.len() >= 3 {
            Some(Record { status: status_of(t[0]), path: t[2], old_path: Some(t[1]) })
        } else {
            None
        }
    } else {
        if t.len() >= 2 {
            Some(Record { status: status_of(t[0]), path: t[1], old_path: None })
        } else {
            None
        }
    }
}

/// Whether every line of `raw` can be read.
pub open spec fn well_formed(raw: Seq<char>) -> bool {
    forall|i: int| 0 <= i < lines(raw).len() ==> record_of(#[trigger] lines(raw)[i]) is Some
}

/// Whether line `i` of `raw` calls for the transfer of `path`.
pub open spec fn line_syncs(raw: Seq<char>, i: int, path: Seq<char>) -> bool {
    &&& 0 <= i < lines(raw).len()
    &&& record_of(lines(raw)[i]) matches Some(record)
    &&& record.synced_path() == Some(path)
}

/// The paths that the listing `raw` calls to transfer: those that some line
/// reports other than as deleted or as renamed without change.
pub open spec fn change_paths(raw: Seq<char>) -> Set<Seq<char>> {
    Set::new(|path: Seq<char>| exists|i: int| line_syncs(raw, i, path))
}

/// The status for the code `v[from..to]`.
fn read_status(v: &Vec<char>, from: usize, to: usize) -> (status: ChangeStatus)
    requires
        from < to <= v.len(),
    ensures
        status == status_of(v@.subrange(from as int, to as int)),
{
    let ghost code = v@.subrange(from as int, to as int);
    let n = to - from;
    assert(code[0] == v@[from as int]);
    if n == 1 && v[from] == 'D' {
        assert(code =~= seq!['D']);
        ChangeStatus::Deleted
    } else if n == 4 && v[from] == 'R' && v[from + 1] == '1' && v[from + 2] == '0' && v[from + 3]
        == '0' {
        assert(code =~= seq!['R', '1', '0', '0']);
        ChangeStatus::RenamedNoContentChange
    } else {
        proof {
            if code == seq!['R', '1', '0', '0'] {
                assert(code[1] == '1' && code[2] == '0' && code[3] == '0');
                assert(code[1] == v@[from + 1]);
                assert(code[2] == v@[from + 2]);
                assert(code[3] == v@[from + 3]);
            }
        }
        if v[from] == 'R' {
            ChangeStatus::RenamedWithContentChange
        } else if n == 1 && v[from] == 'A' {
            assert(code =~= seq!['A']);
            ChangeStatus::Added
        } else if n == 1 && v[from] == 'M' {
            assert(code =~= seq!['M']);
            ChangeStatus::Modified
        } else {
            ChangeStatus::Other
        }
    }
}

/// Reads the line `line`, given by its characters.
fn read_record(line: &Vec<char>) -> (read: Result<ChangeRecord, GsyncError>)
    ensures
        match read {
            Ok(record) => record_of(line@) == Some(record@),
            Err(error) => record_of(line@) is None && error == GsyncError::Custom(
                ErrorKind::MalformedDiffOutput,
            ),
        },
{
    let ranges = split_fields(line, Separator::Whitespace);
    let ghost t = tokens(line@);
    assert(t.len() == ranges.len());
    if ranges.len() == 0 {
        return Err(GsyncError::Custom(ErrorKind::MalformedDiffOutput));
    }
    assert(t[0] == line@.subrange(ranges[0].0 as int, ranges[0].1 as int));
    let status = read_status(line, ranges[0].0, ranges[0].1);
    let renamed = match status {
        ChangeStatus::RenamedNoContentChange => true,
        ChangeStatus::RenamedWithContentChange => true,
        _ => false,
    };
    if renamed {
        if ranges.len() < 3 {
            return Err(GsyncError::Custom(ErrorKind::MalformedDiffOutput));
        }
        assert(t[1] == line@.subrange(ranges[1].0 as int, ranges[1].1 as int));
        assert(t[2] == line@.subrange(ranges[2].0 as int, ranges[2].1 as int));
        let old_path = string_of(line, ranges[1].0, ranges[1].1);
        let path = string_of(line, ranges[2].0, ranges[2].1);
        Ok(ChangeRecord { status, path, old_path: Some(old_path) })
    } else {
        if ranges.len() < 2 {
            return Err(GsyncError::Custom(ErrorKind::MalformedDiffOutput));
        }
        assert(t[1] == line@.subrange(ranges[1].0 as int, ranges[1].1 as int));
        let path = string_of(line, ranges[1].0, ranges[1].1);
        Ok(ChangeRecord { status, path, old_path: None })
    }
}

/// Reads one line of the backend's listing of changes.
pub fn parse_record(line: &str) -> (read: Result<ChangeRecord, GsyncError>)
    ensures
        match read {
            Ok(record) => record_of(line@) == Some(record@),
            Err(error) => record_of(line@) is None && error == GsyncError::Custom(
                ErrorKind::MalformedDiffOutput,
            ),
        },
{
    let chars = chars_of(line);
    read_record(&chars)
}

/// Reads the backend's listing of changes and collects the paths to
/// transfer. A line that cannot be read fails the whole listing.
pub fn parse_changes(raw_changes: &str) -> (changes: Result<ChangeSet, GsyncError>)
    ensures
        changes is Ok == well_formed(raw_changes@),
        match changes {
            Ok(set) => set.wf() && set@ == change_paths(raw_changes@),
            Err(error) => error == GsyncError::Custom(ErrorKind::MalformedDiffOutput),
        },
{
    let chars = chars_of(raw_changes);
    let ranges = split_lines(&chars);
    let ghost raw = raw_changes@;
    let ghost all = lines(raw);
    assert(all.len() == ranges.len());
    let mut set = ChangeSet::new();
    let mut k: usize = 0;
    while k < ranges.len()
        invariant
            k <= ranges.len(),
            raw == raw_changes@,
            chars@ == raw,
            all == lines(raw),
            all.len() == ranges.len(),
            crate::text::as_ranges(ranges@) == crate::text::line_ranges(raw, 0),
            forall|i: int|
                0 <= i < ranges.len() ==> (#[trigger] ranges[i]).0 <= ranges[i].1 <= chars.len(),
            forall|i: int| 0 <= i < k ==> record_of(#[trigger] all[i]) is Some,
            set.wf(),
            forall|path: Seq<char>|
                set@.contains(path) <==> exists|i: int| i < k && line_syncs(raw, i, path),
        decreases ranges.len() - k,
    {
        let line = slice_of(&chars, ranges[k].0, ranges[k].1);
        assert(line@ == all[k as int]);
        let ghost before = set@;
        match read_record(&line) {
            Err(error) => {
                assert(record_of(lines(raw)[k as int]) is None);
                return Err(error);
            },
            Ok(record) => {
                match record.synced_path() {
                    Some(path) => {
                        set.insert(path.as_str());
                    },
                    None => {},
                }
                proof {
                    assert forall|path: Seq<char>|
                        set@.contains(path) <==> exists|i: int|
                            i < k + 1 && line_syncs(raw, i, path) by {
                        if set@.contains(path) {
                            if before.contains(path) {
                                let i = choose|i: int| i < k && line_syncs(raw, i, path);
                                assert(i < k + 1 && line_syncs(raw, i, path));
                            } else {
                                assert(line_syncs(raw, k as int, path));
                            }
                        }
                        if exists|i: int| i < k + 1 && line_syncs(raw, i, path) {
                            let i = choose|i: int| i < k + 1 && line_syncs(raw, i, path);
                            if i < k {
                                assert(before.contains(path));
                            }
                        }
                    }
                }
            },
        }
        k += 1;
    }
    proof {
        assert forall|path: Seq<char>| set@.contains(path) <==> change_paths(raw).contains(
            path,
        ) by {
            if change_paths(raw).contains(path) {
                let i = choose|i: int| line_syncs(raw, i, path);
                assert(i < k && line_syncs(raw, i, path));
            }
        }
        assert(set@ =~= change_paths(raw));
    }
    Ok(set)
}

/// The index of the first line of the listing that cannot be read, for the
/// report of a listing that failed.
pub fn first_malformed(raw_changes: &str) -> (at: Option<usize>)
    ensures
        match at {
            Some(i) => i < lines(raw_changes@).len() && record_of(lines(raw_changes@)[i as int])
                is None && forall|k: int|
                0 <= k < i ==> record_of(#[trigger] lines(raw_changes@)[k]) is Some,
            None => well_formed(raw_changes@),
        },
{
    let chars = chars_of(raw_changes);
    let ranges = split_lines(&chars);
    let ghost all = lines(raw_changes@);
    assert(all.len() == ranges.len());
    let mut k: usize = 0;
    while k < ranges.len()
        invariant
            k <= ranges.len(),
            chars@ == raw_changes@,
            all == lines(raw_changes@),
            all.len() == ranges.len(),
            crate::text::as_ranges(ranges@) == crate::text::line_ranges(raw_changes@, 0),
            forall|i: int|
                0 <= i < ranges.len() ==> (#[trigger] ranges[i]).0 <= ranges[i].1 <= chars.len(),
            forall|i: int| 0 <= i < k ==> record_of(#[trigger] all[i]) is Some,
        decreases ranges.len() - k,
    {
        let line = slice_of(&chars, ranges[k].0, ranges[k].1);
        assert(line@ == all[k as int]);
        if read_record(&line).is_err() {
            return Some(k);
        }
        k += 1;
    }
    None
}

/// No path is transferred that the listing reports as deleted wherever it
/// reports it.
pub proof fn lemma_deleted_paths_excluded(raw: Seq<char>, path: Seq<char>)
    requires
        forall|i: int|
            0 <= i < lines(raw).len() ==> (record_of(#[trigger] lines(raw)[i]) matches Some(record)
                ==> record.path == path ==> record.status == ChangeStatus::Deleted),
    ensures
        !change_paths(raw).contains(path),
{
    if change_paths(raw).contains(path) {
        let i = choose|i: int| line_syncs(raw, i, path);
        assert(record_of(lines(raw)[i]) is Some);
    }
}

/// A rename that left the content as it was transfers neither its old nor
/// its new path: a path that the listing names in such renames only is not
/// among the changes.
pub proof fn lemma_unchanged_renames_excluded(raw: Seq<char>, path: Seq<char>)
    requires
        forall|i: int|
            0 <= i < lines(raw).len() ==> (record_of(#[trigger] lines(raw)[i]) matches Some(record)
                ==> record.names(path) ==> record.status
                == ChangeStatus::RenamedNoContentChange),
    ensures
        !change_paths(raw).contains(path),
{
    if change_paths(raw).contains(path) {
        let i = choose|i: int| line_syncs(raw, i, path);
        assert(record_of(lines(raw)[i]) is Some);
    }
}

/// A rename that changed the content transfers its new path, and on its own
/// account nothing else.
pub proof fn lemma_changed_rename_included(raw: Seq<char>, i: int)
    requires
        0 <= i < lines(raw).len(),
        record_of(lines(raw)[i]) matches Some(record) && record.status
            == ChangeStatus::RenamedWithContentChange,
    ensures
        change_paths(raw).contains(tokens(lines(raw)[i])[2]),
        forall|path: Seq<char>|
            line_syncs(raw, i, path) ==> path == tokens(lines(raw)[i])[2],
{
    assert(line_syncs(raw, i, tokens(lines(raw)[i])[2]));
}

/// How a query to the backend ended.
#[derive(Debug)]
pub enum QueryOutcome {
    /// The backend could not be launched.
    Unavailable,
    /// The backend ran and reported failure.
    Failed,
    /// The backend succeeded and wrote these bytes.
    Succeeded(Vec<u8>),
}

/// A query's outcome, as plain values.
pub enum Outcome {
    Unavailable,
    Failed,
    Succeeded(Seq<u8>),
}

impl View for QueryOutcome {
    type V = Outcome;

    open spec fn view(&self) -> Outcome {
        match self {
            QueryOutcome::Unavailable => Outcome::Unavailable,
            QueryOutcome::Failed => Outcome::Failed,
            QueryOutcome::Succeeded(bytes) => Outcome::Succeeded(bytes@),
        }
    }
}

/// The paths that a query yields, or why it yields none: the backend did not
/// run, it failed, or what it wrote is no UTF-8 or holds a line that cannot
/// be read.
pub open spec fn found_changes(outcome: Outcome) -> Result<Set<Seq<char>>, ErrorKind> {
    match outcome {
        Outcome::Unavailable => Err(ErrorKind::BackendUnavailable),
        Outcome::Failed => Err(ErrorKind::BackendQueryFailed),
        Outcome::Succeeded(bytes) => if valid_utf8(bytes) && well_formed(decode_utf8(bytes)) {
            Ok(change_paths(decode_utf8(bytes)))
        } else {
            Err(ErrorKind::MalformedDiffOutput)
        },
    }
}

/// The paths that one query to the backend yields.
pub fn find_changes(outcome: &QueryOutcome) -> (changes: Result<ChangeSet, GsyncError>)
    ensures
        match changes {
            Ok(set) => set.wf() && found_changes(outcome@) == Ok::<Set<Seq<char>>, ErrorKind>(
                set@,
            ),
            Err(error) => found_changes(outcome@) is Err && error == GsyncError::Custom(
                found_changes(outcome@)->Err_0,
            ),
        },
{
    match outcome {
        QueryOutcome::Unavailable => Err(GsyncError::Custom(ErrorKind::BackendUnavailable)),
        QueryOutcome::Failed => Err(GsyncError::Custom(ErrorKind::BackendQueryFailed)),
        QueryOutcome::Succeeded(bytes) => {
            match core::str::from_utf8(bytes.as_slice()) {
                Ok(text) => {
                    proof {
                        vstd::utf8::encode_utf8_decode_utf8(text@);
                    }
                    parse_changes(text)
                },
                Err(_) => Err(GsyncError::Custom(ErrorKind::MalformedDiffOutput)),
            }
        },
    }
}

} // verus!
