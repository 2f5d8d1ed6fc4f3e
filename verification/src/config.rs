//! The two settings of the command-line program: each from the arguments,
//! else from the value handed in beside them.

use vstd::prelude::*;
use vstd::string::*;

verus! {

/// The settings under which the program runs.
#[derive(Debug, PartialEq, Eq)]
pub struct Config {
    pub project_id: String,
    pub access_token: String,
}

/// Why the arguments give no settings.
#[derive(Debug, Clone, Copy, PartialEq, Eq, Structural)]
pub enum ConfigError {
    /// The last argument is `--project_id`, with no value after it.
    ProjectIdWithoutValue,
    /// The last argument is `--access_token`, with no value after it.
    AccessTokenWithoutValue,
    /// No project id, neither among the arguments nor beside them.
    ProjectIdMissing,
    /// No access token, neither among the arguments nor beside them.
    AccessTokenMissing,
}

pub open spec fn project_id_flag() -> Seq<char> {
    "--project_id"@
}

pub open spec fn access_token_flag() -> Seq<char> {
    "--access_token"@
}

/// The arguments as texts.
pub open spec fn texts(args: Seq<String>) -> Seq<Seq<char>> {
    Seq::new(args.len(), |i: int| args[i]@)
}

/// A value that may be missing, as text.
pub open spec fn text_of(s: Option<String>) -> Option<Seq<char>> {
    match s {
        None => None,
        Some(t) => Some(t@),
    }
}

/// The setting after the first `n` arguments were looked at: the argument
/// after the last of them that is the flag, else the value given.
pub open spec fn setting(args: Seq<Seq<char>>, flag: Seq<char>, given: Option<Seq<char>>, n: nat)
    -> Option<Seq<char>>
    decreases n,
{
    if n == 0 {
        given
    } else if args[n - 1] == flag && n < args.len() {
        Some(args[n as int])
    } else {
        setting(args, flag, given, (n - 1) as nat)
    }
}

/// The last argument is the flag.
pub open spec fn ends_in(args: Seq<Seq<char>>, flag: Seq<char>) -> bool {
    args.len() > 0 && args[args.len() - 1] == flag
}

/// The settings that arguments and given values make: none where the last
/// argument is a flag, or where a setting has neither a flag nor a given
/// value; a flag wins over the given value, and its last use over earlier ones.
pub open spec fn config_of(
    args: Seq<Seq<char>>,
    project_id: Option<Seq<char>>,
    access_token: Option<Seq<char>>,
) -> Result<(Seq<char>, Seq<char>), ConfigError> {
    if ends_in(args, project_id_flag()) {
        Err(ConfigError::ProjectIdWithoutValue)
    } else if ends_in(args, access_token_flag()) {
        Err(ConfigError::AccessTokenWithoutValue)
    } else {
        match setting(args, project_id_flag(), project_id, args.len()) {
            None => Err(ConfigError::ProjectIdMissing),
            Some(p) => match setting(args, access_token_flag(), access_token, args.len()) {
                None => Err(ConfigError::AccessTokenMissing),
                Some(t) => Ok((p, t)),
            },
        }
    }
}

/// The two flags are different texts.
pub proof fn lemma_flags_differ()
    ensures
        project_id_flag() != access_token_flag(),
{
    reveal_strlit("--project_id");
    reveal_strlit("--access_token");
    assert(project_id_flag().len() == 12);
    assert(access_token_flag().len() == 14);
}

/// Reads the settings from the arguments, with the values to fall back on.
pub fn parse_config(
    args: &Vec<String>,
    env_project_id: Option<String>,
    env_access_token: Option<String>,
) -> (r: Result<Config, ConfigError>)
    ensures
        match r {
            Ok(c) => config_of(texts(args@), text_of(env_project_id), text_of(env_access_token))
                == Ok::<(Seq<char>, Seq<char>), ConfigError>((c.project_id@, c.access_token@)),
            Err(e) => config_of(texts(args@), text_of(env_project_id), text_of(env_access_token))
                == Err::<(Seq<char>, Seq<char>), ConfigError>(e),
        },
{
    let project_flag = String::from_str("--project_id");
    let token_flag = String::from_str("--access_token");
    let ghost given_project = text_of(env_project_id);
    let ghost given_token = text_of(env_access_token);
    let ghost a = texts(args@);
    let n: usize = args.len();
    let mut project_id = env_project_id;
    let mut access_token = env_access_token;
    let mut i: usize = 0;
    proof {
        lemma_flags_differ();
    }
    while i < n
        invariant
            i <= n,
            n == args@.len(),
            a == texts(args@),
            project_flag@ == project_id_flag(),
            token_flag@ == access_token_flag(),
            project_id_flag() != access_token_flag(),
            text_of(project_id) == setting(a, project_id_flag(), given_project, i as nat),
            text_of(access_token) == setting(a, access_token_flag(), given_token, i as nat),
            i == n ==> !ends_in(a, project_id_flag()) && !ends_in(a, access_token_flag()),
        decreases n - i,
    {
        assert(a[i as int] == args@[i as int]@);
        if args[i] == project_flag {
            if i == n - 1 {
                return Err(ConfigError::ProjectIdWithoutValue);
            }
            assert(a[i + 1] == args@[i + 1]@);
            project_id = Some(args[i + 1].clone());
        } else if args[i] == token_flag {
            if i == n - 1 {
                return Err(ConfigError::AccessTokenWithoutValue);
            }
            assert(a[i + 1] == args@[i + 1]@);
            access_token = Some(args[i + 1].clone());
        }
        i += 1;
    }
    match project_id {
        None => Err(ConfigError::ProjectIdMissing),
        Some(p) => match access_token {
            None => Err(ConfigError::AccessTokenMissing),
            Some(t) => Ok(Config { project_id: p, access_token: t }),
        },
    }
}

} // verus!
