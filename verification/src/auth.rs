//! The GitHub token.

use crate::text;
use vstd::prelude::*;

verus! {

/// No token was given.
#[derive(Debug, Clone, Copy, PartialEq, Eq, Structural)]
pub struct NoToken;

impl NoToken {
    /// The message for the user, which says what to do.
    pub fn message(self) -> (s: &'static str)
        ensures
            s@
                == "no GitHub token found.\n  Set GH_TOKEN or GITHUB_TOKEN in your environment, or pass --token <PAT>.\n  Quick start: export GH_TOKEN=$(gh auth token)"@,
    {
        "no GitHub token found.\n  Set GH_TOKEN or GITHUB_TOKEN in your environment, or pass --token <PAT>.\n  Quick start: export GH_TOKEN=$(gh auth token)"
    }
}

/// Whether a token was given: there is one, and it is not empty.
pub open spec fn given(token: Option<String>) -> bool {
    text::text_or_empty(text::opt_text(token)).len() > 0
}

/// Resolve a GitHub personal access token from (in order):
///   1. the explicit `--token` flag if provided
///   2. the `GH_TOKEN` env var
///   3. the `GITHUB_TOKEN` env var
///
/// Empty strings are treated as missing.
pub fn resolve_token(flag: Option<String>, gh_token: Option<String>, github_token: Option<String>) -> (r: Result<
    String,
    NoToken,
>)
    ensures
        r == (if given(flag) {
            Ok::<String, NoToken>(flag->0)
        } else if given(gh_token) {
            Ok(gh_token->0)
        } else if given(github_token) {
            Ok(github_token->0)
        } else {
            Err(NoToken)
        }),
        r matches Ok(t) ==> t@.len() > 0 && (flag == Some(t) || gh_token == Some(t) || github_token == Some(t)),
        flag is Some && flag->0@.len() > 0 ==> r == Ok::<String, NoToken>(flag->0),
        (flag is None || flag->0@.len() == 0) && gh_token is Some && gh_token->0@.len() > 0 ==> r == Ok::<String, NoToken>(
            gh_token->0,
        ),
        r is Err <==> (flag is None || flag->0@.len() == 0) && (gh_token is None || gh_token->0@.len() == 0) && (
        github_token is None || github_token->0@.len() == 0),
{
    if let Some(t) = flag {
        if t.as_str().unicode_len() > 0 {
            return Ok(t);
        }
    }
    if let Some(t) = gh_token {
        if t.as_str().unicode_len() > 0 {
            return Ok(t);
        }
    }
    if let Some(t) = github_token {
        if t.as_str().unicode_len() > 0 {
            return Ok(t);
        }
    }
    Err(NoToken)
}

} // verus!
