//! The configuration of a run: which paths to leave alone, and under which
//! remote directory the others go.

use vstd::prelude::*;
use crate::error::{ErrorKind, GsyncError};
use crate::pattern::{compiles, regex_compiles, Pattern};

verus! {

/// Whether each of `patterns` is a regular expression.
pub open spec fn all_compile(patterns: Seq<Seq<char>>) -> bool {
    forall|i: int| 0 <= i < patterns.len() ==> regex_compiles(#[trigger] patterns[i])
}

/// The texts of a vector of strings.
pub open spec fn texts(strings: Seq<String>) -> Seq<Seq<char>> {
    Seq::new(strings.len(), |i: int| strings[i]@)
}

/// The source texts of a vector of patterns.
pub open spec fn sources(patterns: Seq<Pattern>) -> Seq<Seq<char>> {
    Seq::new(patterns.len(), |i: int| patterns[i]@)
}

/// A vector of rules as pairs of texts: the source of the pattern, and the
/// remote directory.
pub open spec fn rules(dir_map: Seq<(Pattern, String)>) -> Seq<(Seq<char>, Seq<char>)> {
    Seq::new(dir_map.len(), |i: int| (dir_map[i].0@, dir_map[i].1@))
}

/// A vector of pairs of strings as pairs of texts.
pub open spec fn pairs(raw: Seq<(String, String)>) -> Seq<(Seq<char>, Seq<char>)> {
    Seq::new(raw.len(), |i: int| (raw[i].0@, raw[i].1@))
}

/// The first components of a sequence of pairs.
pub open spec fn firsts(pairs: Seq<(Seq<char>, Seq<char>)>) -> Seq<Seq<char>> {
    Seq::new(pairs.len(), |i: int| pairs[i].0)
}

/// The index of the first of `patterns` that is no regular expression.
pub fn first_invalid(patterns: &Vec<String>) -> (at: Option<usize>)
    ensures
        match at {
            Some(i) => i < patterns.len() && !regex_compiles(patterns[i as int]@) && forall|
                k: int,
            | 0 <= k < i ==> regex_compiles(#[trigger] patterns[k]@),
            None => all_compile(texts(patterns@)),
        },
{
    let mut i: usize = 0;
    while i < patterns.len()
        invariant
            i <= patterns.len(),
            forall|k: int| 0 <= k < i ==> regex_compiles(#[trigger] patterns[k]@),
        decreases patterns.len() - i,
    {
        if !compiles(patterns[i].as_str()) {
            return Some(i);
        }
        i += 1;
    }
    assert forall|k: int| 0 <= k < texts(patterns@).len() implies regex_compiles(
        #[trigger] texts(patterns@)[k],
    ) by {
        assert(regex_compiles(patterns[k]@));
    }
    None
}

/// Makes the ignore list of its source texts, in their order.
pub fn to_ignored(raw: Vec<String>) -> (made: Result<Vec<Pattern>, GsyncError>)
    ensures
        match made {
            Ok(ignored) => all_compile(texts(raw@)) && sources(ignored@) == texts(raw@),
            Err(error) => !all_compile(texts(raw@)) && error == GsyncError::Custom(
                ErrorKind::ConfigInvalid,
            ),
        },
{
    let mut ignored: Vec<Pattern> = Vec::new();
    let mut i: usize = 0;
    while i < raw.len()
        invariant
            i <= raw.len(),
            ignored.len() == i,
            forall|k: int| 0 <= k < i ==> regex_compiles(#[trigger] raw[k]@),
            forall|k: int| 0 <= k < i ==> (#[trigger] ignored[k])@ == raw[k]@,
        decreases raw.len() - i,
    {
        match Pattern::new(raw[i].as_str()) {
            Ok(pattern) => {
                ignored.push(pattern);
            },
            Err(error) => {
                assert(!regex_compiles(texts(raw@)[i as int]));
                return Err(error);
            },
        }
        i += 1;
    }
    assert forall|k: int| 0 <= k < texts(raw@).len() implies regex_compiles(
        #[trigger] texts(raw@)[k],
    ) by {
        assert(regex_compiles(raw[k]@));
    }
    assert(sources(ignored@) =~= texts(raw@));
    Ok(ignored)
}

/// Makes the rule list of pairs of pattern source and remote directory, in
/// their order.
pub fn to_dirmap(raw: Vec<(String, String)>) -> (made: Result<Vec<(Pattern, String)>, GsyncError>)
    ensures
        match made {
            Ok(dir_map) => all_compile(firsts(pairs(raw@))) && rules(dir_map@) == pairs(raw@),
            Err(error) => !all_compile(firsts(pairs(raw@))) && error == GsyncError::Custom(
                ErrorKind::ConfigInvalid,
            ),
        },
{
    let mut dir_map: Vec<(Pattern, String)> = Vec::new();
    let mut i: usize = 0;
    while i < raw.len()
        invariant
            i <= raw.len(),
            dir_map.len() == i,
            forall|k: int| 0 <= k < i ==> regex_compiles(#[trigger] raw[k].0@),
            forall|k: int|
                0 <= k < i ==> (#[trigger] dir_map[k]).0@ == raw[k].0@ && dir_map[k].1@
                    == raw[k].1@,
        decreases raw.len() - i,
    {
        match Pattern::new(raw[i].0.as_str()) {
            Ok(pattern) => {
                dir_map.push((pattern, raw[i].1.clone()));
            },
            Err(error) => {
                assert(!regex_compiles(firsts(pairs(raw@))[i as int]));
                return Err(error);
            },
        }
        i += 1;
    }
    assert forall|k: int| 0 <= k < firsts(pairs(raw@)).len() implies regex_compiles(
        #[trigger] firsts(pairs(raw@))[k],
    ) by {
        assert(regex_compiles(raw[k].0@));
    }
    assert(rules(dir_map@) =~= pairs(raw@));
    Ok(dir_map)
}

/// What a configuration file holds, before its patterns are compiled.
#[derive(Debug)]
pub struct RawConfig {
    pub dir_map: Vec<(String, String)>,
    pub ignored: Vec<String>,
}

/// The ordered ignore patterns and the ordered rules.
#[derive(Debug)]
pub struct Config {
    /// Pairs of source pattern and remote directory; the first that matches
    /// a path decides.
    pub dir_map: Vec<(Pattern, String)>,
    /// Paths that match one of these are left alone.
    pub ignored: Vec<Pattern>,
}

/// A configuration as texts.
pub struct Settings {
    pub dir_map: Seq<(Seq<char>, Seq<char>)>,
    pub ignored: Seq<Seq<char>>,
}

impl View for Config {
    type V = Settings;

    open spec fn view(&self) -> Settings {
        Settings { dir_map: rules(self.dir_map@), ignored: sources(self.ignored@) }
    }
}

impl View for RawConfig {
    type V = Settings;

    open spec fn view(&self) -> Settings {
        Settings { dir_map: pairs(self.dir_map@), ignored: texts(self.ignored@) }
    }
}

impl Settings {
    /// Whether every pattern of both lists is a regular expression.
    pub open spec fn valid(self) -> bool {
        all_compile(self.ignored) && all_compile(firsts(self.dir_map))
    }
}

impl Config {
    /// Makes the configuration of what the configuration file held; `None`
    /// says that there was no such file. Both lists keep their order.
    pub fn parse_config(found: Option<RawConfig>) -> (parsed: Result<Config, GsyncError>)
        ensures
            match parsed {
                Ok(config) => found matches Some(raw) && raw@.valid() && config@ == raw@,
                Err(error) => match found {
                    None => error == GsyncError::Custom(ErrorKind::ConfigNotExist),
                    Some(raw) => !raw@.valid() && error == GsyncError::Custom(
                        ErrorKind::ConfigInvalid,
                    ),
                },
            },
    {
        match found {
            None => Err(GsyncError::Custom(ErrorKind::ConfigNotExist)),
            Some(raw) => {
                let RawConfig { dir_map: raw_rules, ignored: raw_ignored } = raw;
                let dir_map = match to_dirmap(raw_rules) {
                    Ok(dir_map) => dir_map,
                    Err(error) => {
                        return Err(error);
                    },
                };
                let ignored = match to_ignored(raw_ignored) {
                    Ok(ignored) => ignored,
                    Err(error) => {
                        return Err(error);
                    },
                };
                Ok(Config { dir_map, ignored })
            },
        }
    }
}

} // verus!
