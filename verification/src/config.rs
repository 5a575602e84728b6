//! Which repository a command works on, and the credentials that go with it.
use crate::text::{split_once_chars, split_once_seq, chars_of, string_of};
use vstd::prelude::*;

verus! {

/// A repository named as `org/name`.
pub struct Repo {
    pub org: String,
    pub name: String,
}

/// A repository argument without a `/`.
pub struct RepoParseError {
    /// The text that was given.
    pub input: String,
}

impl RepoParseError {
    /// The message the command line shows for this error, naming the text given.
    pub open spec fn message_spec(&self) -> Seq<char> {
        "expected org/name, got "@ + crate::text::debug_text(self.input@)
    }

    /// The message the command line shows for this error.
    pub fn message(&self) -> (r: String)
        ensures
            r@ == self.message_spec(),
    {
        let mut v = chars_of("expected org/name, got ");
        let quoted = crate::text::debug_quoted(self.input.as_str());
        crate::text::push_str(&mut v, quoted.as_str());
        string_of(&v)
    }
}

impl Repo {
    /// Splits `org/name` at its first `/`: what comes before is the organisation, the
    /// rest (further slashes included) is the name.
    pub fn parse(s: &str) -> (r: Result<Repo, RepoParseError>)
        ensures
            match split_once_seq(s@, '/') {
                Some((org, name)) => r matches Ok(repo) && repo.org@ == org && repo.name@ == name,
                None => r matches Err(e) && e.input@ == s@,
            },
            r matches Ok(repo) ==> repo.org@ + seq!['/'] + repo.name@ == s@ && !repo.org@.contains(
                '/',
            ),
            r is Err <==> !s@.contains('/'),
    {
        proof {
            crate::text::lemma_first_index_in_range(s@, '/');
            if let Some(i) = crate::text::first_index_of(s@, '/') {
                assert(s@.subrange(0, i) + seq!['/'] + s@.subrange(i + 1, s@.len() as int) =~= s@);
                assert(s@[i] == '/');
                if s@.subrange(0, i).contains('/') {
                    let k = choose|k: int| 0 <= k < i && s@.subrange(0, i)[k] == '/';
                    assert(s@[k] == '/');
                }
            } else {
                if s@.contains('/') {
                    let k = choose|k: int| 0 <= k < s@.len() && s@[k] == '/';
                    assert(s@[k] == '/');
                }
            }
        }
        let chars = chars_of(s);
        match split_once_chars(&chars, '/') {
            Some((org, name)) => Ok(Repo { org: string_of(&org), name: string_of(&name) }),
            None => Err(RepoParseError { input: string_of(&chars) }),
        }
    }
}

/// Credentials together with the repository they are used on.
pub struct Config {
    pub github_token: String,
    pub org: String,
    pub repo: String,
}

impl Config {
    /// The configuration for `repo` with the given token.
    pub fn with_token(repo: &Repo, github_token: String) -> (c: Config)
        ensures
            c.github_token@ == github_token@,
            c.org@ == repo.org@,
            c.repo@ == repo.name@,
    {
        Config { github_token, org: repo.org.clone(), repo: repo.name.clone() }
    }

    /// `owner_repo`, the prefix of the data, database and summary files of the repository.
    pub fn file_prefix(&self) -> (r: String)
        ensures
            r@ == self.org@ + seq!['_'] + self.repo@,
    {
        let mut v = chars_of(self.org.as_str());
        v.push('_');
        crate::text::push_str(&mut v, self.repo.as_str());
        string_of(&v)
    }
}

} // verus!
