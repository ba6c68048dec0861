//! Resolving the paths that a model writes.

use vstd::prelude::*;

use crate::path::{join_path, join_paths};
use crate::text::{strip_prefix, strip_prefix_text};
use crate::tool::Environment;

verus! {

/// The path that `input` names: `~/` stands for the home directory, and a
/// relative path is taken from `working_dir`.
pub open spec fn resolved(
    input: Seq<char>,
    working_dir: Seq<char>,
    home: Option<Seq<char>>,
) -> Result<Seq<char>, Seq<char>> {
    match strip_prefix(input, "~/"@) {
        Some(rest) => match home {
            Some(dir) => Ok(join_path(working_dir, join_path(dir, rest))),
            None => Err("~ expansion requested but $HOME is not set"@),
        },
        None => Ok(join_path(working_dir, input)),
    }
}

pub fn resolve_user_path(input: &str, working_dir: &str, env: &Environment) -> (r: Result<
    String,
    String,
>)
    ensures
        match r {
            Ok(p) => resolved(input@, working_dir@, env@.home) == Ok::<Seq<char>, Seq<char>>(p@),
            Err(m) => resolved(input@, working_dir@, env@.home) == Err::<Seq<char>, Seq<char>>(m@),
        },
{
    match strip_prefix_text(input, "~/") {
        Some(rest) => match &env.home {
            Some(dir) => {
                let full = join_paths(dir.as_str(), rest.as_str());
                Ok(join_paths(working_dir, full.as_str()))
            },
            None => Err("~ expansion requested but $HOME is not set".to_owned()),
        },
        None => Ok(join_paths(working_dir, input)),
    }
}

/// A path that is absolute is taken as it is, one that starts at the home
/// directory needs one, and others are taken from the working directory.
pub proof fn law_paths_are_resolved(
    input: Seq<char>,
    rest: Seq<char>,
    working_dir: Seq<char>,
    home: Seq<char>,
)
    requires
        !(input.len() >= 2 && input[0] == '~' && input[1] == '/'),
        !(rest.len() > 0 && rest[0] == '/'),
        home.len() > 0,
        home[0] == '/',
        home.last() != '/',
    ensures
        input.len() > 0 && input[0] == '/' ==> resolved(input, working_dir, Some(home)) == Ok::<
            Seq<char>,
            Seq<char>,
        >(input),
        resolved(input, working_dir, None) == resolved(input, working_dir, Some(home)),
        !(input.len() > 0 && input[0] == '/') && working_dir.len() > 0 && working_dir.last() != '/'
            ==> resolved(input, working_dir, Some(home)) == Ok::<Seq<char>, Seq<char>>(
            working_dir + seq!['/'] + input,
        ),
        resolved("~/"@ + rest, working_dir, Some(home)) == Ok::<Seq<char>, Seq<char>>(
            home + seq!['/'] + rest,
        ),
        resolved("~/"@ + rest, working_dir, None) is Err,
{
    reveal_strlit("~/");
    let tilde = "~/"@ + rest;
    assert(tilde.take(2) =~= "~/"@);
    assert(tilde.skip(2) =~= rest);
    if crate::text::starts_with(input, "~/"@) {
        assert(input.take(2)[0] == '~' && input.take(2)[1] == '/');
    }
    crate::path::law_joined_path(home, rest);
    crate::path::law_joined_path(working_dir, input);
}

} // verus!
