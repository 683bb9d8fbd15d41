//! A run from its options to its plan: what has to hold before it starts,
//! which paths the backend's answers add up to, and what is done with them.

use vstd::prelude::*;
use crate::changeset::ChangeSet;
use crate::commit::{
    find_changes, found_changes, parse_commit, parsed_commit, CommitSpecifier, Outcome,
    QueryOutcome, Specifier,
};
use crate::config::{firsts, texts, Config, RawConfig, Settings};
use crate::destination::{parsed_destination, Destination, Remote};
use crate::error::{ErrorKind, GsyncError};
use crate::order::ascending;
use crate::plan::{make_plan, plan_of, SyncPlan};

verus! {

/// The options of a run, as the command line gives them.
#[derive(Debug)]
pub struct Opt {
    /// The path of the configuration file.
    pub config: String,
    /// A folder inside the repository.
    pub source: String,
    /// The remote host, as `host` or `user@host`.
    pub destination: String,
    /// How much to log.
    pub verbose: u8,
    /// The commit specifiers; none stands for the working tree.
    pub commits: Vec<String>,
}

/// How much a run logs.
#[derive(Debug, Clone, Copy, PartialEq, Eq, Structural)]
pub enum LogLevel {
    Error,
    Info,
    Debug,
    Off,
}

/// The level that `verbose` flags ask for: errors without any, then more
/// with each up to two; beyond that nothing is logged.
pub open spec fn log_level_of(verbose: u8) -> LogLevel {
    if verbose == 0 {
        LogLevel::Error
    } else if verbose == 1 {
        LogLevel::Info
    } else if verbose == 2 {
        LogLevel::Debug
    } else {
        LogLevel::Off
    }
}

impl Opt {
    /// How much the run logs.
    pub fn log_level(&self) -> (level: LogLevel)
        ensures
            level == log_level_of(self.verbose),
    {
        match self.verbose {
            0 => LogLevel::Error,
            1 => LogLevel::Info,
            2 => LogLevel::Debug,
            _ => LogLevel::Off,
        }
    }
}

/// What the caller found out for the options before the run.
#[derive(Debug)]
pub struct Probe {
    /// Whether the source folder exists.
    pub source_exists: bool,
    /// What the backend wrote when asked for the top level of the
    /// repository that holds the source folder.
    pub toplevel: Vec<u8>,
    /// What the configuration file holds, if there is such a file.
    pub config: Option<RawConfig>,
    /// The user to log in as where the destination names none.
    pub default_user: String,
}

/// Accepts the source folder if it exists.
pub fn validate_source(exists: bool) -> (valid: Result<(), GsyncError>)
    ensures
        valid is Ok == exists,
        valid matches Err(error) ==> error == GsyncError::Custom(ErrorKind::SourceNotExist),
{
    if exists {
        Ok(())
    } else {
        Err(GsyncError::Custom(ErrorKind::SourceNotExist))
    }
}

/// The top level of the repository, from what the backend wrote when asked
/// for it: the bytes without the line feed that ends them. Nothing written
/// means that the source is in no repository.
pub fn get_repo_root(toplevel: &Vec<u8>) -> (root: Result<Vec<u8>, GsyncError>)
    ensures
        match root {
            Ok(path) => toplevel.len() > 0 && path@ == toplevel@.drop_last(),
            Err(error) => toplevel.len() == 0 && error == GsyncError::Custom(
                ErrorKind::SourceNotGitRepo,
            ),
        },
{
    let n = toplevel.len();
    if n == 0 {
        return Err(GsyncError::Custom(ErrorKind::SourceNotGitRepo));
    }
    let mut path: Vec<u8> = Vec::new();
    let mut i: usize = 0;
    while i < n - 1
        invariant
            n == toplevel.len(),
            n > 0,
            i <= n - 1,
            path@ == toplevel@.take(i as int),
        decreases n - i,
    {
        path.push(toplevel[i]);
        i += 1;
    }
    assert(toplevel@.take(n - 1) =~= toplevel@.drop_last());
    Ok(path)
}

/// Why a run with the options of destination `destination` cannot start, if
/// it cannot: the first of these that holds. The source folder is missing;
/// it lies in no repository; there is no configuration file; one of its
/// patterns is no regular expression; the destination cannot be read.
pub open spec fn setup_error(
    destination: Seq<char>,
    source_exists: bool,
    toplevel: Seq<u8>,
    config: Option<Settings>,
    default_user: Seq<char>,
) -> Option<ErrorKind> {
    if !source_exists {
        Some(ErrorKind::SourceNotExist)
    } else if toplevel.len() == 0 {
        Some(ErrorKind::SourceNotGitRepo)
    } else if config is None {
        Some(ErrorKind::ConfigNotExist)
    } else if !config->0.valid() {
        Some(ErrorKind::ConfigInvalid)
    } else if parsed_destination(destination, default_user) is None {
        Some(ErrorKind::DestinationInvalid)
    } else {
        None
    }
}

/// The configuration that a probe holds, as texts.
pub open spec fn probed_settings(config: Option<RawConfig>) -> Option<Settings> {
    match config {
        Some(raw) => Some(raw@),
        None => None,
    }
}

/// Whether query `i` of `outcomes` yields `path`.
pub open spec fn yields(outcomes: Seq<Outcome>, i: int, path: Seq<char>) -> bool {
    &&& 0 <= i < outcomes.len()
    &&& found_changes(outcomes[i]) matches Ok(paths)
    &&& paths.contains(path)
}

/// The paths that the queries `outcomes` yield together: the union of what
/// each yields, where a query that failed yields nothing.
pub open spec fn all_changes(outcomes: Seq<Outcome>) -> Set<Seq<char>> {
    Set::new(|path: Seq<char>| exists|i: int| yields(outcomes, i, path))
}

/// Why each of the queries `outcomes` failed, if it did.
pub open spec fn failures(outcomes: Seq<Outcome>) -> Seq<Option<ErrorKind>> {
    Seq::new(
        outcomes.len(),
        |i: int|
            match found_changes(outcomes[i]) {
                Ok(_) => None,
                Err(kind) => Some(kind),
            },
    )
}

/// The outcomes of a vector of queries, as plain values.
pub open spec fn outcomes_of(outcomes: Seq<QueryOutcome>) -> Seq<Outcome> {
    Seq::new(outcomes.len(), |i: int| outcomes[i]@)
}

/// The order of two queries does not change what they yield together.
pub proof fn lemma_all_changes_commutative(first: Outcome, second: Outcome)
    ensures
        all_changes(seq![first, second]) == all_changes(seq![second, first]),
{
    let forth = seq![first, second];
    let back = seq![second, first];
    assert forall|path: Seq<char>| all_changes(forth).contains(path) <==> all_changes(
        back,
    ).contains(path) by {
        if all_changes(forth).contains(path) {
            let i = choose|i: int| yields(forth, i, path);
            assert(yields(back, 1 - i, path));
        }
        if all_changes(back).contains(path) {
            let i = choose|i: int| yields(back, i, path);
            assert(yields(forth, 1 - i, path));
        }
    }
    assert(all_changes(forth) =~= all_changes(back));
}

/// A query asked twice yields what it yields once.
pub proof fn lemma_all_changes_idempotent(outcome: Outcome)
    ensures
        all_changes(seq![outcome, outcome]) == all_changes(seq![outcome]),
{
    let twice = seq![outcome, outcome];
    let once = seq![outcome];
    assert forall|path: Seq<char>| all_changes(twice).contains(path) <==> all_changes(
        once,
    ).contains(path) by {
        if all_changes(twice).contains(path) {
            let i = choose|i: int| yields(twice, i, path);
            assert(yields(once, 0, path));
        }
        if all_changes(once).contains(path) {
            let i = choose|i: int| yields(once, i, path);
            assert(yields(twice, 0, path));
        }
    }
    assert(all_changes(twice) =~= all_changes(once));
}

/// A run: its configuration, its remote host and its commit specifiers.
#[derive(Debug)]
pub struct Gsync {
    root: Vec<u8>,
    config: Config,
    destination: Destination,
    commits: Vec<String>,
}

impl Gsync {
    /// The top level of the repository, as the bytes of its path.
    pub closed spec fn root_path(&self) -> Seq<u8> {
        self.root@
    }

    /// The configuration, as texts.
    pub closed spec fn settings(&self) -> Settings {
        self.config@
    }

    /// The remote host and user.
    pub closed spec fn remote(&self) -> Remote {
        self.destination@
    }

    /// The commit specifiers, as texts.
    pub closed spec fn specifier_texts(&self) -> Seq<Seq<char>> {
        texts(self.commits@)
    }

    /// Sets a run up from its options and from what the caller found out
    /// for them.
    pub fn from_options(opts: Opt, probe: Probe) -> (run: Result<Self, GsyncError>)
        ensures
            match run {
                Ok(gsync) => {
                    &&& setup_error(
                        opts.destination@,
                        probe.source_exists,
                        probe.toplevel@,
                        probed_settings(probe.config),
                        probe.default_user@,
                    ) is None
                    &&& gsync.root_path() == probe.toplevel@.drop_last()
                    &&& Some(gsync.settings()) == probed_settings(probe.config)
                    &&& Some(gsync.remote()) == parsed_destination(
                        opts.destination@,
                        probe.default_user@,
                    )
                    &&& gsync.specifier_texts() == texts(opts.commits@)
                },
                Err(error) => {
                    &&& setup_error(
                        opts.destination@,
                        probe.source_exists,
                        probe.toplevel@,
                        probed_settings(probe.config),
                        probe.default_user@,
                    ) matches Some(kind)
                    &&& error == GsyncError::Custom(kind)
                },
            },
    {
        let Probe { source_exists, toplevel, config: raw, default_user } = probe;
        match validate_source(source_exists) {
            Err(error) => {
                return Err(error);
            },
            Ok(_) => {},
        }
        let root = match get_repo_root(&toplevel) {
            Err(error) => {
                return Err(error);
            },
            Ok(root) => root,
        };
        let config = match Config::parse_config(raw) {
            Err(error) => {
                return Err(error);
            },
            Ok(config) => config,
        };
        let destination = match Destination::parse_destination(
            opts.destination.as_str(),
            default_user.as_str(),
        ) {
            Err(error) => {
                return Err(error);
            },
            Ok(destination) => destination,
        };
        Ok(Gsync { root, config, destination, commits: opts.commits })
    }

    /// The top level of the repository, as the bytes of its path: where the
    /// backend is to run, and where the paths of a plan start.
    pub fn root(&self) -> (root: &Vec<u8>)
        ensures
            root@ == self.root_path(),
    {
        &self.root
    }

    /// The configuration of the run.
    pub fn config(&self) -> (config: &Config)
        ensures
            config@ == self.settings(),
    {
        &self.config
    }

    /// The remote host of the run.
    pub fn destination(&self) -> (destination: &Destination)
        ensures
            destination@ == self.remote(),
    {
        &self.destination
    }

    /// The commit specifiers as the options gave them.
    pub fn commits(&self) -> (commits: &Vec<String>)
        ensures
            texts(commits@) == self.specifier_texts(),
    {
        &self.commits
    }

    /// Whether the run is about the working tree: it is where no commit
    /// specifier was given.
    pub fn uses_working_tree(&self) -> (bare: bool)
        ensures
            bare == (self.specifier_texts().len() == 0),
    {
        self.commits.len() == 0
    }

    /// What each commit specifier names, in the order of the options. One
    /// that cannot be read does not stop the others.
    pub fn specifiers(&self) -> (parsed: Vec<Result<Option<CommitSpecifier>, GsyncError>>)
        ensures
            parsed.len() == self.specifier_texts().len(),
            forall|i: int|
                0 <= i < parsed.len() ==> match #[trigger] parsed[i] {
                    Ok(Some(specifier)) => parsed_commit(self.specifier_texts()[i]) == Ok::<
                        Option<Specifier>,
                        ErrorKind,
                    >(Some(specifier@)),
                    Ok(None) => parsed_commit(self.specifier_texts()[i]) == Ok::<
                        Option<Specifier>,
                        ErrorKind,
                    >(None),
                    Err(error) => parsed_commit(self.specifier_texts()[i]) is Err && error
                        == GsyncError::Custom(ErrorKind::InvalidSpecifierFormat),
                },
    {
        let mut parsed: Vec<Result<Option<CommitSpecifier>, GsyncError>> = Vec::new();
        let mut i: usize = 0;
        while i < self.commits.len()
            invariant
                i <= self.commits.len(),
                parsed.len() == i,
                self.specifier_texts() == texts(self.commits@),
                forall|k: int|
                    0 <= k < i ==> match #[trigger] parsed[k] {
                        Ok(Some(specifier)) => parsed_commit(self.specifier_texts()[k]) == Ok::<
                            Option<Specifier>,
                            ErrorKind,
                        >(Some(specifier@)),
                        Ok(None) => parsed_commit(self.specifier_texts()[k]) == Ok::<
                            Option<Specifier>,
                            ErrorKind,
                        >(None),
                        Err(error) => parsed_commit(self.specifier_texts()[k]) is Err && error
                            == GsyncError::Custom(ErrorKind::InvalidSpecifierFormat),
                    },
            decreases self.commits.len() - i,
        {
            let one = parse_commit(self.commits[i].as_str());
            parsed.push(one);
            i += 1;
        }
        parsed
    }

    /// The paths that the backend's answers add up to: the union of what
    /// each query yields. A query that failed adds nothing and does not
    /// stop the others; the second result says for each query why it
    /// failed, if it did.
    pub fn find_changes(&self, outcomes: &Vec<QueryOutcome>) -> (found: (
        ChangeSet,
        Vec<Option<ErrorKind>>,
    ))
        ensures
            found.0.wf(),
            found.0@ == all_changes(outcomes_of(outcomes@)),
            found.1@ == failures(outcomes_of(outcomes@)),
    {
        let ghost all = outcomes_of(outcomes@);
        let mut changes = ChangeSet::new();
        let mut failed: Vec<Option<ErrorKind>> = Vec::new();
        let mut i: usize = 0;
        while i < outcomes.len()
            invariant
                i <= outcomes.len(),
                all == outcomes_of(outcomes@),
                changes.wf(),
                forall|path: Seq<char>|
                    changes@.contains(path) <==> exists|k: int| k < i && yields(all, k, path),
                failed@ == failures(all).take(i as int),
            decreases outcomes.len() - i,
        {
            let ghost before = changes@;
            assert(all[i as int] == outcomes[i as int]@);
            match find_changes(&outcomes[i]) {
                Ok(found) => {
                    changes.extend(&found);
                    failed.push(None);
                },
                Err(error) => {
                    match error {
                        GsyncError::Custom(kind) => {
                            failed.push(Some(kind));
                        },
                        _ => {
                            failed.push(None);
                        },
                    }
                },
            }
            proof {
                assert(failed@ =~= failures(all).take(i + 1));
                assert forall|path: Seq<char>|
                    changes@.contains(path) <==> exists|k: int|
                        k < i + 1 && yields(all, k, path) by {
                    if changes@.contains(path) {
                        if before.contains(path) {
                            let k = choose|k: int| k < i && yields(all, k, path);
                            assert(k < i + 1 && yields(all, k, path));
                        } else {
                            assert(yields(all, i as int, path));
                        }
                    }
                    if exists|k: int| k < i + 1 && yields(all, k, path) {
                        let k = choose|k: int| k < i + 1 && yields(all, k, path);
                        if k < i {
                            assert(before.contains(path));
                        }
                    }
                }
            }
            i += 1;
        }
        proof {
            assert forall|path: Seq<char>| changes@.contains(path) <==> all_changes(all).contains(
                path,
            ) by {
                if all_changes(all).contains(path) {
                    let k = choose|k: int| yields(all, k, path);
                    assert(k < i && yields(all, k, path));
                }
            }
            assert(changes@ =~= all_changes(all));
            assert(failures(all).take(i as int) =~= failures(all));
        }
        (changes, failed)
    }

    /// Starts the run on the changed paths: sorts them into those left
    /// alone, those to transfer with their destinations, and those that no
    /// rule covers.
    pub fn start(&self, changes: &ChangeSet) -> (plan: SyncPlan)
        ensures
            plan@ == plan_of(self.settings(), changes.seq()),
            ascending(firsts(plan@.mapped)),
    {
        make_plan(&self.config, changes)
    }
}

} // verus!
