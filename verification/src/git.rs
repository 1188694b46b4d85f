//! Recording a bump in version control: which `git` commands to run, in
//! which order and with which words. Running them is left to the caller.

use crate::version::{text_of_triple, Triple, Version};
use vstd::prelude::*;
use vstd::string::StringExecFns;

verus! {

/// The words of one command.
pub open spec fn words_of(command: Seq<String>) -> Seq<Seq<char>> {
    command.map_values(|word: String| word@)
}

/// The words of each command of a plan.
pub open spec fn commands_of(plan: Seq<Vec<String>>) -> Seq<Seq<Seq<char>>> {
    plan.map_values(|command: Vec<String>| words_of(command@))
}

/// The name of the tag of a version: `v`, then the version.
pub open spec fn tag_name(t: Triple) -> Seq<char> {
    "v"@ + text_of_triple(t)
}

/// The commit message where none is given.
pub open spec fn default_message(t: Triple) -> Seq<char> {
    "bump version v"@ + text_of_triple(t)
}

pub open spec fn message_or_default(message: Option<String>, t: Triple) -> Seq<char> {
    match message {
        Some(text) => text@,
        None => default_message(t),
    }
}

/// `git tag v<version>`
pub open spec fn tag_words(t: Triple) -> Seq<Seq<char>> {
    seq!["tag"@, tag_name(t)]
}

/// `git add <path>`
pub open spec fn stage_words(path: Seq<char>) -> Seq<Seq<char>> {
    seq!["add"@, path]
}

/// `git commit -m <message>`, with `-S` behind it for a signed commit.
pub open spec fn commit_words(message: Seq<char>, signed: bool) -> Seq<Seq<char>> {
    if signed {
        seq!["commit"@, "-m"@, message, "-S"@]
    } else {
        seq!["commit"@, "-m"@, message]
    }
}

/// The words that tag the repository with the version.
pub fn git_tag(version: &Version) -> (args: Vec<String>)
    ensures
        words_of(args@) == tag_words(version@),
{
    let mut name = String::from_str("v");
    name.append(version.to_string().as_str());
    let mut args: Vec<String> = Vec::new();
    args.push(String::from_str("tag"));
    args.push(name);
    assert(words_of(args@) =~= tag_words(version@));
    args
}

/// The words that stage the manifest.
pub fn git_stage(path: &str) -> (args: Vec<String>)
    ensures
        words_of(args@) == stage_words(path@),
{
    let mut args: Vec<String> = Vec::new();
    args.push(String::from_str("add"));
    args.push(String::from_str(path));
    assert(words_of(args@) =~= stage_words(path@));
    args
}

/// The commands that commit the manifest: stage it, then commit with the
/// given message, or with "bump version v<version>" where none is given.
pub fn git_commit(version: &Version, is_signature: bool, message: Option<String>, path: &str) -> (plan:
    Vec<Vec<String>>)
    ensures
        commands_of(plan@) == seq![
            stage_words(path@),
            commit_words(message_or_default(message, version@), is_signature),
        ],
{
    let ghost words = commit_words(message_or_default(message, version@), is_signature);
    let message = match message {
        Some(text) => text,
        None => {
            let mut text = String::from_str("bump version v");
            text.append(version.to_string().as_str());
            text
        },
    };
    let mut commit: Vec<String> = Vec::new();
    commit.push(String::from_str("commit"));
    commit.push(String::from_str("-m"));
    commit.push(message);
    if is_signature {
        commit.push(String::from_str("-S"));
    }
    assert(words_of(commit@) =~= words);
    let mut plan: Vec<Vec<String>> = Vec::new();
    plan.push(git_stage(path));
    plan.push(commit);
    assert(commands_of(plan@) =~= seq![stage_words(path@), words]);
    plan
}

/// The commands that record a bump, in the order in which they are to run:
/// tag, stage, commit. The caller runs them and stops at the first that
/// cannot be started.
pub fn git_commit_and_tag(
    version: &Version,
    is_signature: bool,
    message: Option<String>,
    path: &str,
) -> (plan: Vec<Vec<String>>)
    ensures
        commands_of(plan@) == seq![
            tag_words(version@),
            stage_words(path@),
            commit_words(message_or_default(message, version@), is_signature),
        ],
{
    let ghost words = commit_words(message_or_default(message, version@), is_signature);
    let tag = git_tag(version);
    let mut plan = git_commit(version, is_signature, message, path);
    let ghost rest = plan@;
    assert(commands_of(rest).len() == 2);
    assert(commands_of(rest)[0] == stage_words(path@));
    assert(commands_of(rest)[1] == words);
    plan.insert(0, tag);
    assert(plan@[1] == rest[0] && plan@[2] == rest[1]);
    assert(commands_of(plan@) =~= seq![tag_words(version@), stage_words(path@), words]);
    plan
}

} // verus!
