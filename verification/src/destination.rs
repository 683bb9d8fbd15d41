//! The remote host of a run, and the user to log in as.

use vstd::prelude::*;
use vstd::string::StringExecFns;
use crate::error::{ErrorKind, GsyncError};
use crate::pattern::{capture, capture_texts, regex_capture, regex_compiles};
use crate::plan::{push_segment, with_segment};
use crate::text::{chars_of, string_of};

verus! {

/// A remote host and a user, as texts.
pub struct Remote {
    pub username: Seq<char>,
    pub host: Seq<char>,
}

/// The remote host of a run, and the user to log in as.
#[derive(Debug)]
pub struct Destination {
    username: String,
    host: String,
}

impl View for Destination {
    type V = Remote;

    closed spec fn view(&self) -> Remote {
        Remote { username: self.username@, host: self.host@ }
    }
}

/// The form of a destination: any number of `user@` parts, of which the
/// last one counts, and then the host.
pub open spec fn destination_pattern() -> Seq<char> {
    "^(?:(?P<username>[^@]+)@)*(?P<host>.+)$"@
}

/// What the groups `username` and `host` of a destination make: the host
/// has to be there; where no user is, `default_user` stands in.
pub open spec fn remote_of(
    username: Option<Option<Seq<char>>>,
    host: Option<Option<Seq<char>>>,
    default_user: Seq<char>,
) -> Option<Remote> {
    match host {
        Some(Some(host)) => Some(
            Remote {
                username: match username {
                    Some(Some(username)) => username,
                    _ => default_user,
                },
                host,
            },
        ),
        _ => None,
    }
}

/// The remote that the text `destination` names, by the groups that the
/// destination pattern captures in it.
pub open spec fn parsed_destination(destination: Seq<char>, default_user: Seq<char>) -> Option<
    Remote,
> {
    if regex_compiles(destination_pattern()) {
        remote_of(
            regex_capture(destination_pattern(), destination, "username"@),
            regex_capture(destination_pattern(), destination, "host"@),
            default_user,
        )
    } else {
        None
    }
}

/// A way to log in, as texts.
pub enum Login {
    Agent,
    KeyFiles { private: Seq<char>, public: Seq<char> },
    Password { prompt: Seq<char> },
}

/// A way to log in on the remote host.
#[derive(Debug)]
pub enum Attempt {
    /// By the keys that the key agent holds.
    Agent,
    /// By the key pair in these two files, where both exist.
    KeyFiles { private: String, public: String },
    /// By a password, asked for with this prompt.
    Password { prompt: String },
}

impl View for Attempt {
    type V = Login;

    open spec fn view(&self) -> Login {
        match self {
            Attempt::Agent => Login::Agent,
            Attempt::KeyFiles { private, public } => Login::KeyFiles {
                private: private@,
                public: public@,
            },
            Attempt::Password { prompt } => Login::Password { prompt: prompt@ },
        }
    }
}

/// The names of the private key files, in the order in which they are
/// tried.
pub open spec fn key_names() -> Seq<Seq<char>> {
    seq!["id_ed25519"@, "id_rsa"@, "id_ecdsa"@, "id_dsa"@]
}

/// The key pair of name `name` under the home directory `home`: the private
/// key lies in the directory `.ssh`, the public key beside it with `.pub`
/// behind its name.
pub open spec fn key_files(home: Seq<char>, name: Seq<char>) -> Login {
    let private = with_segment(with_segment(home, ".ssh"@), name);
    Login::KeyFiles { private, public: private + ".pub"@ }
}

/// The prompt for the password of `remote`.
pub open spec fn password_prompt(remote: Remote) -> Seq<char> {
    remote.username + "@"@ + remote.host + "'s password: "@
}

/// The ways to log in on `remote`, in the order in which they are tried:
/// the key agent, each key pair, the password.
pub open spec fn logins(remote: Remote, home: Seq<char>) -> Seq<Login> {
    seq![Login::Agent] + Seq::new(key_names().len(), |i: int| key_files(home, key_names()[i]))
        + seq![Login::Password { prompt: password_prompt(remote) }]
}

/// The key pair of name `name` under `home`.
fn key_pair(home: &str, name: &str) -> (pair: Attempt)
    ensures
        pair@ == key_files(home@, name@),
{
    let mut path = chars_of(home);
    let directory = chars_of(".ssh");
    push_segment(&mut path, &directory, 0, directory.len());
    assert(directory@.subrange(0, directory.len() as int) =~= directory@);
    let file = chars_of(name);
    push_segment(&mut path, &file, 0, file.len());
    assert(file@.subrange(0, file.len() as int) =~= file@);
    let private = string_of(&path, 0, path.len());
    assert(path@.subrange(0, path.len() as int) =~= path@);
    let mut public = private.clone();
    public.append(".pub");
    Attempt::KeyFiles { private, public }
}

impl Destination {
    pub fn new(username: String, host: String) -> (destination: Self)
        ensures
            destination@ == (Remote { username: username@, host: host@ }),
    {
        Destination { username, host }
    }

    /// The user to log in as.
    pub fn username(&self) -> (username: &str)
        ensures
            username@ == self@.username,
    {
        self.username.as_str()
    }

    /// The remote host.
    pub fn host(&self) -> (host: &str)
        ensures
            host@ == self@.host,
    {
        self.host.as_str()
    }

    /// The address to connect to: the host, and the port of the secure
    /// shell.
    pub fn address(&self) -> (address: String)
        ensures
            address@ == self@.host + seq![':', '2', '2'],
    {
        let mut address = self.host.clone();
        address.push(':');
        address.push('2');
        address.push('2');
        assert(address@ =~= self@.host + seq![':', '2', '2']);
        address
    }

    /// The ways to log in, in the order in which to try them; the first
    /// that succeeds ends the search. `home` is the home directory of the
    /// local user.
    pub fn attempts(&self, home: &str) -> (ways: Vec<Attempt>)
        ensures
            ways@.len() == logins(self@, home@).len(),
            forall|i: int| 0 <= i < ways.len() ==> (#[trigger] ways[i])@ == logins(self@, home@)[i],
    {
        let mut prompt = self.username.clone();
        prompt.append("@");
        prompt.append(self.host.as_str());
        prompt.append("'s password: ");
        let mut ways: Vec<Attempt> = Vec::new();
        ways.push(Attempt::Agent);
        ways.push(key_pair(home, "id_ed25519"));
        ways.push(key_pair(home, "id_rsa"));
        ways.push(key_pair(home, "id_ecdsa"));
        ways.push(key_pair(home, "id_dsa"));
        ways.push(Attempt::Password { prompt });
        ways
    }

    /// Makes the destination of what the groups `username` and `host`
    /// captured in its text.
    pub fn from_captures(
        username: Option<Option<String>>,
        host: Option<Option<String>>,
        default_user: &str,
    ) -> (made: Result<Self, GsyncError>)
        ensures
            match made {
                Ok(destination) => remote_of(
                    capture_texts(username),
                    capture_texts(host),
                    default_user@,
                ) == Some(destination@),
                Err(error) => remote_of(capture_texts(username), capture_texts(host), default_user@)
                    is None && error == GsyncError::Custom(ErrorKind::DestinationInvalid),
            },
    {
        match host {
            Some(Some(host)) => {
                let username = match username {
                    Some(Some(username)) => username,
                    _ => default_user.to_owned(),
                };
                Ok(Destination { username, host })
            },
            _ => Err(GsyncError::Custom(ErrorKind::DestinationInvalid)),
        }
    }

    /// Reads a destination of the form `host` or `user@host`. The user of a
    /// destination that names none is `default_user`.
    pub fn parse_destination(destination: &str, default_user: &str) -> (parsed: Result<
        Self,
        GsyncError,
    >)
        ensures
            match parsed {
                Ok(remote) => parsed_destination(destination@, default_user@) == Some(remote@),
                Err(error) => parsed_destination(destination@, default_user@) is None && error
                    == GsyncError::Custom(ErrorKind::DestinationInvalid),
            },
    {
        let pattern = "^(?:(?P<username>[^@]+)@)*(?P<host>.+)$";
        let username = capture(pattern, destination, "username");
        let host = capture(pattern, destination, "host");
        Destination::from_captures(username, host, default_user)
    }
}

} // verus!
