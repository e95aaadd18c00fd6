//! The environment selector: a closed enumeration of the runtime
//! environments, constructed only by validated, case-insensitive parsing of
//! a free-text token.

use vstd::prelude::*;
use vstd::string::StringExecFns;

use crate::error::ConfigError;
use crate::text::fold_seq;
use crate::text::str_eq_fold;

verus! {

/// The closed set of runtime environments.
#[derive(Clone, Copy, PartialEq, Eq, Structural)]
pub enum Environment {
    Local,
    Production,
}

/// Which environment a free-text token selects: the token is compared with
/// the two canonical names up to ASCII letter case; any other token selects
/// none.
pub open spec fn environment_of(token: Seq<char>) -> Option<Environment> {
    if fold_seq(token) == fold_seq("local"@) {
        Some(Environment::Local)
    } else if fold_seq(token) == fold_seq("production"@) {
        Some(Environment::Production)
    } else {
        None
    }
}

/// The message reported for a token that selects no environment: it quotes
/// the token verbatim, followed by the two allowed values.
pub open spec fn invalid_environment_message(token: Seq<char>) -> Seq<char> {
    token + " is not a supported environment. Use either `local` or `production`."@
}

impl Environment {
    /// The canonical lowercase name of this environment.
    pub open spec fn spec_name(self) -> Seq<char> {
        match self {
            Environment::Local => "local"@,
            Environment::Production => "production"@,
        }
    }

    /// The canonical lowercase name, used to pick the override document.
    pub fn as_str(&self) -> (r: &'static str)
        ensures
            r@ == self.spec_name(),
    {
        match self {
            Environment::Local => "local",
            Environment::Production => "production",
        }
    }

    /// Parses an environment-selecting token, ignoring ASCII letter case.
    /// Exactly `local` and `production` are accepted; any other token is
    /// rejected with [`ConfigError::InvalidEnvironment`] whose message
    /// contains the token verbatim.
    pub fn try_from(token: &str) -> (r: Result<Environment, ConfigError>)
        ensures
            environment_of(token@) matches Some(e) ==> r == Ok::<Environment, ConfigError>(e),
            environment_of(token@) is None ==> (r matches Err(e)
                && e matches ConfigError::InvalidEnvironment(m)
                && m@ == invalid_environment_message(token@)),
    {
        if str_eq_fold(token, "local") {
            Ok(Environment::Local)
        } else if str_eq_fold(token, "production") {
            Ok(Environment::Production)
        } else {
            let mut m = String::from_str(token);
            m.append(" is not a supported environment. Use either `local` or `production`.");
            Err(ConfigError::InvalidEnvironment(m))
        }
    }
}

/// Law: parsing is insensitive to ASCII letter case — two tokens with the
/// same case-folded form select the same environment (or both none).
pub proof fn lemma_parse_case_insensitive(a: Seq<char>, b: Seq<char>)
    requires
        fold_seq(a) == fold_seq(b),
    ensures
        environment_of(a) == environment_of(b),
{
}

/// Law: the rejection message quotes the offending token verbatim, as its
/// leading characters.
pub proof fn lemma_invalid_message_contains_token(token: Seq<char>)
    ensures
        invalid_environment_message(token).len() >= token.len(),
        invalid_environment_message(token).subrange(0, token.len() as int) == token,
{
    assert(invalid_environment_message(token).subrange(0, token.len() as int) =~= token);
}

} // verus!
