//! From the changed paths to the plan of a run: which paths are left alone,
//! which go where, and which no rule covers.

use vstd::prelude::*;
use crate::changeset::ChangeSet;
use crate::config::{firsts, pairs, texts, Config, Settings};
use crate::pattern::regex_matches;
use crate::error::{ErrorKind, GsyncError};
use crate::order::{ascending, precedes};
use crate::text::{chars_of, segments, split_fields, string_of, Separator};

verus! {

/// The index of the first of `patterns` from `i` on that matches `text`.
pub open spec fn first_match_from(patterns: Seq<Seq<char>>, text: Seq<char>, i: int) -> Option<
    int,
>
    decreases patterns.len() - i,
{
    if i >= patterns.len() {
        None
    } else if regex_matches(patterns[i], text) {
        Some(i)
    } else {
        first_match_from(patterns, text, i + 1)
    }
}

/// The index of the first of `patterns` that matches `text`.
pub open spec fn first_match(patterns: Seq<Seq<char>>, text: Seq<char>) -> Option<int> {
    first_match_from(patterns, text, 0)
}

proof fn lemma_first_match_from(patterns: Seq<Seq<char>>, text: Seq<char>, i: int)
    requires
        0 <= i,
    ensures
        match first_match_from(patterns, text, i) {
            Some(k) => i <= k < patterns.len() && regex_matches(patterns[k], text) && forall|
                j: int,
            | i <= j < k ==> !regex_matches(#[trigger] patterns[j], text),
            None => forall|j: int|
                i <= j < patterns.len() ==> !regex_matches(#[trigger] patterns[j], text),
        },
    decreases patterns.len() - i,
{
    if i < patterns.len() && !regex_matches(patterns[i], text) {
        lemma_first_match_from(patterns, text, i + 1);
    }
}

/// The first match is a match, and no pattern before it is one; there is
/// none only if no pattern matches.
pub proof fn lemma_first_match(patterns: Seq<Seq<char>>, text: Seq<char>)
    ensures
        match first_match(patterns, text) {
            Some(k) => 0 <= k < patterns.len() && regex_matches(patterns[k], text) && forall|
                j: int,
            | 0 <= j < k ==> !regex_matches(#[trigger] patterns[j], text),
            None => forall|j: int|
                0 <= j < patterns.len() ==> !regex_matches(#[trigger] patterns[j], text),
        },
{
    lemma_first_match_from(patterns, text, 0);
}

/// What the rules make of a path, with the winning rule by its index.
pub enum Class {
    Ignored,
    Mapped(int),
    Unmapped,
}

/// What the rules make of a path.
#[derive(Debug, Clone, Copy, PartialEq, Eq, Structural)]
pub enum Classification {
    /// An ignore pattern matches it.
    Ignored,
    /// No ignore pattern matches it, and the rule with this index is the
    /// first whose pattern does.
    Mapped(usize),
    /// Nothing matches it.
    Unmapped,
}

impl View for Classification {
    type V = Class;

    open spec fn view(&self) -> Class {
        match self {
            Classification::Ignored => Class::Ignored,
            Classification::Mapped(k) => Class::Mapped(*k as int),
            Classification::Unmapped => Class::Unmapped,
        }
    }
}

/// The class of `path`: ignored if any ignore pattern matches it; else
/// mapped by the first rule whose pattern matches it; else unmapped.
pub open spec fn classified(settings: Settings, path: Seq<char>) -> Class {
    if first_match(settings.ignored, path) is Some {
        Class::Ignored
    } else {
        match first_match(firsts(settings.dir_map), path) {
            Some(k) => Class::Mapped(k),
            None => Class::Unmapped,
        }
    }
}

/// A path that an ignore pattern matches is ignored, whatever the rules
/// say.
pub proof fn lemma_ignore_comes_first(settings: Settings, path: Seq<char>, i: int)
    requires
        0 <= i < settings.ignored.len(),
        regex_matches(settings.ignored[i], path),
    ensures
        classified(settings, path) == Class::Ignored,
{
    lemma_first_match(settings.ignored, path);
}

/// Of the rules that match a path the earliest one maps it: no later rule
/// overrides it.
pub proof fn lemma_earliest_rule_wins(settings: Settings, path: Seq<char>, k: int)
    requires
        classified(settings, path) == Class::Mapped(k),
    ensures
        0 <= k < settings.dir_map.len(),
        regex_matches(settings.dir_map[k].0, path),
        forall|j: int| 0 <= j < k ==> !regex_matches(#[trigger] settings.dir_map[j].0, path),
        forall|j: int|
            0 <= j < settings.ignored.len() ==> !regex_matches(
                #[trigger] settings.ignored[j],
                path,
            ),
{
    lemma_first_match(settings.ignored, path);
    lemma_first_match(firsts(settings.dir_map), path);
    assert forall|j: int| 0 <= j < k implies !regex_matches(
        #[trigger] settings.dir_map[j].0,
        path,
    ) by {
        assert(firsts(settings.dir_map)[j] == settings.dir_map[j].0);
    }
}

/// Classifies `path` by the ignore patterns and the rules, each in its
/// order.
pub fn classify(config: &Config, path: &str) -> (class: Classification)
    ensures
        class@ == classified(config@, path@),
{
    let ghost ignored = config@.ignored;
    let ghost sources = firsts(config@.dir_map);
    let mut i: usize = 0;
    while i < config.ignored.len()
        invariant
            i <= config.ignored.len(),
            ignored == config@.ignored,
            first_match(ignored, path@) == first_match_from(ignored, path@, i as int),
        decreases config.ignored.len() - i,
    {
        assert(ignored[i as int] == config.ignored[i as int]@);
        if config.ignored[i].is_match(path) {
            return Classification::Ignored;
        }
        i += 1;
    }
    let mut k: usize = 0;
    while k < config.dir_map.len()
        invariant
            k <= config.dir_map.len(),
            ignored == config@.ignored,
            sources == firsts(config@.dir_map),
            first_match(ignored, path@) is None,
            first_match(sources, path@) == first_match_from(sources, path@, k as int),
        decreases config.dir_map.len() - k,
    {
        assert(sources[k as int] == config.dir_map[k as int].0@);
        if config.dir_map[k].0.is_match(path) {
            return Classification::Mapped(k);
        }
        k += 1;
    }
    Classification::Unmapped
}

/// Whether a path starts at the root.
pub open spec fn is_absolute(path: Seq<char>) -> bool {
    path.len() > 0 && path[0] == '/'
}

/// Whether `path` lies under `base`, segment by segment: both start at the
/// root or neither does, and the segments of `base` are the first segments
/// of `path`.
pub open spec fn lies_under(path: Seq<char>, base: Seq<char>) -> bool {
    &&& is_absolute(path) == is_absolute(base)
    &&& segments(base).len() <= segments(path).len()
    &&& segments(path).take(segments(base).len() as int) == segments(base)
}

/// The segments of `path` that follow those of `base`.
pub open spec fn remainder(path: Seq<char>, base: Seq<char>) -> Seq<Seq<char>> {
    segments(path).skip(segments(base).len() as int)
}

/// `base` with the segment `segment` behind it, a separator between them
/// unless `base` is empty or ends in one.
pub open spec fn with_segment(base: Seq<char>, segment: Seq<char>) -> Seq<char> {
    if base.len() == 0 || base.last() == '/' {
        base + segment
    } else {
        base.push('/') + segment
    }
}

/// `root` with the segments `rest` behind it, one after the other.
pub open spec fn joined(root: Seq<char>, rest: Seq<Seq<char>>) -> Seq<char>
    decreases rest.len(),
{
    if rest.len() == 0 {
        root
    } else {
        with_segment(joined(root, rest.drop_last()), rest.last())
    }
}

/// Where `path` goes under the rule `(pattern, root)`: what of `path`
/// follows the literal text of `pattern`, taken as a path, joined to `root`.
/// `None` where `path` does not lie under that text.
pub open spec fn destination(path: Seq<char>, pattern: Seq<char>, root: Seq<char>) -> Option<
    Seq<char>,
> {
    if lies_under(path, pattern) {
        Some(joined(root, remainder(path, pattern)))
    } else {
        None
    }
}

/// Whether `a[ra.0..ra.1]` and `b[rb.0..rb.1]` hold the same text.
fn same_text(a: &Vec<char>, ra: (usize, usize), b: &Vec<char>, rb: (usize, usize)) -> (same: bool)
    requires
        ra.0 <= ra.1 <= a.len(),
        rb.0 <= rb.1 <= b.len(),
    ensures
        same == (a@.subrange(ra.0 as int, ra.1 as int) == b@.subrange(rb.0 as int, rb.1 as int)),
{
    let ghost x = a@.subrange(ra.0 as int, ra.1 as int);
    let ghost y = b@.subrange(rb.0 as int, rb.1 as int);
    if ra.1 - ra.0 != rb.1 - rb.0 {
        assert(x.len() != y.len());
        return false;
    }
    let n = ra.1 - ra.0;
    let mut i: usize = 0;
    while i < n
        invariant
            i <= n,
            n == ra.1 - ra.0,
            n == rb.1 - rb.0,
            ra.1 <= a.len(),
            rb.1 <= b.len(),
            x == a@.subrange(ra.0 as int, ra.1 as int),
            y == b@.subrange(rb.0 as int, rb.1 as int),
            forall|k: int| 0 <= k < i ==> x[k] == y[k],
        decreases n - i,
    {
        if a[ra.0 + i] != b[rb.0 + i] {
            assert(x[i as int] != y[i as int]);
            return false;
        }
        i += 1;
    }
    assert(x =~= y);
    true
}

/// Puts the segment `source[from..to]` behind `target`, with a separator
/// between them unless `target` is empty or ends in one.
pub fn push_segment(target: &mut Vec<char>, source: &Vec<char>, from: usize, to: usize)
    requires
        from <= to <= source.len(),
    ensures
        final(target)@ == with_segment(old(target)@, source@.subrange(from as int, to as int)),
{
    if target.len() > 0 && target[target.len() - 1] != '/' {
        target.push('/');
    }
    let ghost base = target@;
    let mut i: usize = from;
    while i < to
        invariant
            from <= i <= to <= source.len(),
            target@ == base + source@.subrange(from as int, i as int),
        decreases to - i,
    {
        target.push(source[i]);
        i += 1;
    }
}

/// Rewrites `path` for the rule `(pattern, root)`: strips the literal text
/// of `pattern` from its front, as a path, and joins the rest to `root`.
pub fn map_path(path: &str, pattern: &str, root: &str) -> (mapped: Result<String, GsyncError>)
    ensures
        match mapped {
            Ok(target) => destination(path@, pattern@, root@) == Some(target@),
            Err(error) => destination(path@, pattern@, root@) is None && error
                == GsyncError::Custom(ErrorKind::PathStripMismatch),
        },
{
    let p = chars_of(path);
    let b = chars_of(pattern);
    let p_absolute = p.len() > 0 && p[0] == '/';
    let b_absolute = b.len() > 0 && b[0] == '/';
    if p_absolute != b_absolute {
        return Err(GsyncError::Custom(ErrorKind::PathStripMismatch));
    }
    let ps = split_fields(&p, Separator::Slash);
    let bs = split_fields(&b, Separator::Slash);
    let ghost p_segments = segments(p@);
    let ghost b_segments = segments(b@);
    assert(p_segments.len() == ps.len());
    assert(b_segments.len() == bs.len());
    if bs.len() > ps.len() {
        return Err(GsyncError::Custom(ErrorKind::PathStripMismatch));
    }
    let mut k: usize = 0;
    while k < bs.len()
        invariant
            k <= bs.len() <= ps.len(),
            p@ == path@,
            b@ == pattern@,
            p_segments == segments(p@),
            b_segments == segments(b@),
            p_segments.len() == ps.len(),
            b_segments.len() == bs.len(),
            crate::text::as_ranges(ps@) == crate::text::field_ranges(p@, 0, Separator::Slash),
            crate::text::as_ranges(bs@) == crate::text::field_ranges(b@, 0, Separator::Slash),
            forall|i: int| 0 <= i < ps.len() ==> (#[trigger] ps[i]).0 < ps[i].1 <= p.len(),
            forall|i: int| 0 <= i < bs.len() ==> (#[trigger] bs[i]).0 < bs[i].1 <= b.len(),
            forall|i: int| 0 <= i < k ==> p_segments[i] == b_segments[i],
        decreases bs.len() - k,
    {
        assert(p_segments[k as int] == p@.subrange(ps[k as int].0 as int, ps[k as int].1 as int));
        assert(b_segments[k as int] == b@.subrange(bs[k as int].0 as int, bs[k as int].1 as int));
        if !same_text(&p, ps[k], &b, bs[k]) {
            assert(p_segments.take(b_segments.len() as int)[k as int] != b_segments[k as int]);
            return Err(GsyncError::Custom(ErrorKind::PathStripMismatch));
        }
        k += 1;
    }
    assert(p_segments.take(b_segments.len() as int) =~= b_segments);
    let ghost rest = remainder(p@, b@);
    let mut target = chars_of(root);
    let mut j: usize = bs.len();
    while j < ps.len()
        invariant
            bs.len() <= j <= ps.len(),
            p_segments == segments(p@),
            p_segments.len() == ps.len(),
            crate::text::as_ranges(ps@) == crate::text::field_ranges(p@, 0, Separator::Slash),
            forall|i: int| 0 <= i < ps.len() ==> (#[trigger] ps[i]).0 < ps[i].1 <= p.len(),
            rest == p_segments.skip(bs.len() as int),
            target@ == joined(root@, rest.take(j - bs.len())),
        decreases ps.len() - j,
    {
        let ghost done = rest.take(j - bs.len());
        let ghost next = rest.take(j + 1 - bs.len());
        let ghost segment = p@.subrange(ps[j as int].0 as int, ps[j as int].1 as int);
        assert(p_segments[j as int] == segment);
        assert(next.drop_last() =~= done);
        assert(next.last() == segment);
        push_segment(&mut target, &p, ps[j].0, ps[j].1);
        j += 1;
    }
    assert(rest.take(ps.len() - bs.len()) =~= rest);
    let text = string_of(&target, 0, target.len());
    assert(target@.subrange(0, target.len() as int) =~= target@);
    Ok(text)
}

/// What becomes of a changed path.
pub enum Fate {
    /// An ignore pattern matches it.
    Ignored,
    /// A rule maps it to this destination.
    Mapped(Seq<char>),
    /// Nothing matches it.
    Unmapped,
    /// A rule matches it, but the path does not lie under the literal text
    /// of the rule's pattern.
    Mismatched,
}

/// What becomes of `path` under `settings`.
pub open spec fn fate(settings: Settings, path: Seq<char>) -> Fate {
    match classified(settings, path) {
        Class::Ignored => Fate::Ignored,
        Class::Unmapped => Fate::Unmapped,
        Class::Mapped(k) => match destination(
            path,
            settings.dir_map[k].0,
            settings.dir_map[k].1,
        ) {
            Some(target) => Fate::Mapped(target),
            None => Fate::Mismatched,
        },
    }
}

/// Keeps the ignored paths.
pub open spec fn keep_ignored(settings: Settings) -> spec_fn(Seq<char>) -> Option<Seq<char>> {
    |path: Seq<char>|
        if fate(settings, path) is Ignored {
            Some(path)
        } else {
            None
        }
}

/// Keeps the paths that no pattern matches.
pub open spec fn keep_unmapped(settings: Settings) -> spec_fn(Seq<char>) -> Option<Seq<char>> {
    |path: Seq<char>|
        if fate(settings, path) is Unmapped {
            Some(path)
        } else {
            None
        }
}

/// Keeps the paths whose rule does not fit them.
pub open spec fn keep_mismatched(settings: Settings) -> spec_fn(Seq<char>) -> Option<Seq<char>> {
    |path: Seq<char>|
        if fate(settings, path) is Mismatched {
            Some(path)
        } else {
            None
        }
}

/// Keeps the mapped paths, each with its destination.
pub open spec fn keep_mapped(settings: Settings) -> spec_fn(Seq<char>) -> Option<
    (Seq<char>, Seq<char>),
> {
    |path: Seq<char>|
        match fate(settings, path) {
            Fate::Mapped(target) => Some((path, target)),
            _ => None,
        }
}

/// A plan as texts.
pub struct Plan {
    pub ignored: Seq<Seq<char>>,
    pub mapped: Seq<(Seq<char>, Seq<char>)>,
    pub unmapped: Seq<Seq<char>>,
    pub mismatched: Seq<Seq<char>>,
}

/// The plan for the paths `paths` under `settings`: each list holds the
/// paths of its kind in the order of `paths`.
pub open spec fn plan_of(settings: Settings, paths: Seq<Seq<char>>) -> Plan {
    Plan {
        ignored: paths.filter_map(keep_ignored(settings)),
        mapped: paths.filter_map(keep_mapped(settings)),
        unmapped: paths.filter_map(keep_unmapped(settings)),
        mismatched: paths.filter_map(keep_mismatched(settings)),
    }
}

/// What a run will do with each changed path.
#[derive(Debug)]
pub struct SyncPlan {
    /// The paths that an ignore pattern matches.
    pub ignored: Vec<String>,
    /// The paths to transfer, each with its destination, in ascending order
    /// of the paths.
    pub mapped: Vec<(String, String)>,
    /// The paths that no pattern matches.
    pub unmapped: Vec<String>,
    /// The paths whose rule matched them without their lying under the
    /// literal text of its pattern.
    pub mismatched: Vec<String>,
}

impl View for SyncPlan {
    type V = Plan;

    open spec fn view(&self) -> Plan {
        Plan {
            ignored: texts(self.ignored@),
            mapped: pairs(self.mapped@),
            unmapped: texts(self.unmapped@),
            mismatched: texts(self.mismatched@),
        }
    }
}

impl SyncPlan {
    /// Whether the plan leaves nothing to transfer, so that there is
    /// nothing to ask the operator.
    pub fn is_idle(&self) -> (idle: bool)
        ensures
            idle == (self@.mapped.len() == 0),
    {
        self.mapped.len() == 0
    }
}

/// Whether `path` stands among the first `n` of `paths`.
pub open spec fn among(paths: Seq<Seq<char>>, n: int, path: Seq<char>) -> bool {
    exists|j: int| 0 <= j < n && j < paths.len() && paths[j] == path
}

/// What `f` keeps of an element of `s` stands in `s.filter_map(f)`.
proof fn lemma_filter_map_keeps<A, B>(s: Seq<A>, f: spec_fn(A) -> Option<B>, i: int)
    requires
        0 <= i < s.len(),
        f(s[i]) is Some,
    ensures
        s.filter_map(f).contains(f(s[i])->0),
    decreases s.len(),
{
    let kept = f(s[i])->0;
    let rest = s.drop_last();
    if i == s.len() - 1 {
        let all = s.filter_map(f);
        assert(all == rest.filter_map(f) + seq![kept]);
        assert(all[all.len() - 1] == kept);
    } else {
        lemma_filter_map_keeps(rest, f, i);
        let before = rest.filter_map(f);
        let k = choose|k: int| 0 <= k < before.len() && before[k] == kept;
        assert(s.filter_map(f)[k] == kept);
    }
}

/// Each list of a plan holds exactly the paths of its kind: a changed path
/// stands in the one list that its fate names, each mapped path with the
/// destination that its rule gives it, and nothing else stands in any
/// list.
pub proof fn lemma_plan_sorts_paths(settings: Settings, paths: Seq<Seq<char>>, path: Seq<char>)
    ensures
        plan_of(settings, paths).ignored.contains(path) <==> paths.contains(path) && fate(
            settings,
            path,
        ) is Ignored,
        plan_of(settings, paths).unmapped.contains(path) <==> paths.contains(path) && fate(
            settings,
            path,
        ) is Unmapped,
        plan_of(settings, paths).mismatched.contains(path) <==> paths.contains(path) && fate(
            settings,
            path,
        ) is Mismatched,
        forall|target: Seq<char>|
            plan_of(settings, paths).mapped.contains((path, target)) <==> paths.contains(path)
                && fate(settings, path) == Fate::Mapped(target),
{
    let plan = plan_of(settings, paths);
    if plan.ignored.contains(path) {
        paths.lemma_filter_map_contains(keep_ignored(settings), path);
    }
    if plan.unmapped.contains(path) {
        paths.lemma_filter_map_contains(keep_unmapped(settings), path);
    }
    if plan.mismatched.contains(path) {
        paths.lemma_filter_map_contains(keep_mismatched(settings), path);
    }
    assert forall|target: Seq<char>| plan.mapped.contains((path, target)) implies paths.contains(
        path,
    ) && fate(settings, path) == Fate::Mapped(target) by {
        paths.lemma_filter_map_contains(keep_mapped(settings), (path, target));
    }
    if paths.contains(path) {
        let i = choose|i: int| 0 <= i < paths.len() && paths[i] == path;
        match fate(settings, path) {
            Fate::Ignored => {
                lemma_filter_map_keeps(paths, keep_ignored(settings), i);
            },
            Fate::Unmapped => {
                lemma_filter_map_keeps(paths, keep_unmapped(settings), i);
            },
            Fate::Mismatched => {
                lemma_filter_map_keeps(paths, keep_mismatched(settings), i);
            },
            Fate::Mapped(target) => {
                lemma_filter_map_keeps(paths, keep_mapped(settings), i);
            },
        }
    }
}

/// Makes the plan for the changed paths `changes` under `config`.
pub fn make_plan(config: &Config, changes: &ChangeSet) -> (plan: SyncPlan)
    ensures
        plan@ == plan_of(config@, changes.seq()),
        ascending(firsts(plan@.mapped)),
{
    let ghost settings = config@;
    let ghost paths = changes.seq();
    let mut plan = SyncPlan {
        ignored: Vec::new(),
        mapped: Vec::new(),
        unmapped: Vec::new(),
        mismatched: Vec::new(),
    };
    let n = changes.len();
    proof {
        assert(paths.take(0) =~= Seq::<Seq<char>>::empty());
        assert(plan@.ignored =~= paths.take(0).filter_map(keep_ignored(settings)));
        assert(plan@.mapped =~= paths.take(0).filter_map(keep_mapped(settings)));
        assert(plan@.unmapped =~= paths.take(0).filter_map(keep_unmapped(settings)));
        assert(plan@.mismatched =~= paths.take(0).filter_map(keep_mismatched(settings)));
    }
    let mut i: usize = 0;
    while i < n
        invariant
            i <= n,
            n == paths.len(),
            settings == config@,
            paths == changes.seq(),
            ascending(paths),
            plan@.ignored == paths.take(i as int).filter_map(keep_ignored(settings)),
            plan@.mapped == paths.take(i as int).filter_map(keep_mapped(settings)),
            plan@.unmapped == paths.take(i as int).filter_map(keep_unmapped(settings)),
            plan@.mismatched == paths.take(i as int).filter_map(keep_mismatched(settings)),
            forall|k: int|
                0 <= k < plan@.mapped.len() ==> among(paths, i as int, (#[trigger] plan@.mapped[k]).0),
            ascending(firsts(plan@.mapped)),
        decreases n - i,
    {
        let path = changes.get(i);
        let ghost before = plan@;
        proof {
            paths.lemma_filter_map_take_succ(keep_ignored(settings), i as int);
            paths.lemma_filter_map_take_succ(keep_mapped(settings), i as int);
            paths.lemma_filter_map_take_succ(keep_unmapped(settings), i as int);
            paths.lemma_filter_map_take_succ(keep_mismatched(settings), i as int);
        }
        match classify(config, path.as_str()) {
            Classification::Ignored => {
                plan.ignored.push(path);
                assert(plan@.ignored =~= before.ignored + seq![paths[i as int]]);
                assert(plan@.mapped =~= before.mapped);
                assert(plan@.unmapped =~= before.unmapped);
                assert(plan@.mismatched =~= before.mismatched);
            },
            Classification::Unmapped => {
                plan.unmapped.push(path);
                assert(plan@.unmapped =~= before.unmapped + seq![paths[i as int]]);
                assert(plan@.mapped =~= before.mapped);
                assert(plan@.ignored =~= before.ignored);
                assert(plan@.mismatched =~= before.mismatched);
            },
            Classification::Mapped(k) => {
                proof {
                    lemma_earliest_rule_wins(settings, paths[i as int], k as int);
                }
                let rule = &config.dir_map[k];
                assert(settings.dir_map[k as int] == (rule.0@, rule.1@));
                match map_path(path.as_str(), rule.0.as_str(), rule.1.as_str()) {
                    Ok(target) => {
                        let ghost entry = (paths[i as int], target@);
                        plan.mapped.push((path, target));
                        proof {
                            assert(plan@.mapped =~= before.mapped + seq![entry]);
                            assert(plan@.ignored =~= before.ignored);
                            assert(plan@.unmapped =~= before.unmapped);
                            assert(plan@.mismatched =~= before.mismatched);
                            let sources = firsts(plan@.mapped);
                            assert forall|x: int, y: int|
                                0 <= x < y < sources.len() implies precedes(
                                #[trigger] sources[x],
                                #[trigger] sources[y],
                            ) by {
                                if y < before.mapped.len() {
                                    assert(precedes(
                                        firsts(before.mapped)[x],
                                        firsts(before.mapped)[y],
                                    ));
                                } else {
                                    assert(among(paths, i as int, before.mapped[x].0));
                                    let j = choose|j: int|
                                        0 <= j < i && j < paths.len() && paths[j]
                                            == before.mapped[x].0;
                                    assert(precedes(paths[j], paths[i as int]));
                                }
                            }
                            assert forall|k: int| 0 <= k < plan@.mapped.len() implies among(
                                paths,
                                i + 1,
                                (#[trigger] plan@.mapped[k]).0,
                            ) by {
                                if k < before.mapped.len() {
                                    assert(among(paths, i as int, before.mapped[k].0));
                                } else {
                                    assert(paths[i as int] == plan@.mapped[k].0);
                                }
                            }
                        }
                    },
                    Err(_) => {
                        plan.mismatched.push(path);
                        assert(plan@.mismatched =~= before.mismatched + seq![paths[i as int]]);
                        assert(plan@.mapped =~= before.mapped);
                        assert(plan@.ignored =~= before.ignored);
                        assert(plan@.unmapped =~= before.unmapped);
                    },
                }
            },
        }
        proof {
            assert forall|k: int| 0 <= k < plan@.mapped.len() implies among(
                paths,
                i + 1,
                (#[trigger] plan@.mapped[k]).0,
            ) by {
                if plan@.mapped == before.mapped {
                    assert(among(paths, i as int, before.mapped[k].0));
                }
            }
        }
        i += 1;
    }
    assert(paths.take(n as int) =~= paths);
    plan
}

} // verus!
