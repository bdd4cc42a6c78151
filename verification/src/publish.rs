//! The commands that a release runs.

use crate::config::SPEC;
use crate::globs::{file_name, file_name_of, law_file_name};
use crate::tags::{bare, law_bare, without_v};
use crate::text::{copy_strings, same_str, texts};
use vstd::prelude::*;

verus! {

/// A program and the arguments that it is started with.
#[derive(Debug)]
pub struct CommandLine {
    pub program: String,
    pub args: Vec<String>,
}

// ---------------------------------------------------------------------------
// The model
// ---------------------------------------------------------------------------

/// Whether a command is this program with these arguments.
pub open spec fn command_is(
    command: CommandLine,
    program: Seq<char>,
    args: Seq<Seq<char>>,
) -> bool {
    command.program@ == program && texts(command.args@) == args
}

/// The arguments of the generator: the generator is named like the directory
/// of its templates, and the version that its output is seeded with is given
/// for `package.json` and for `build.gradle.kts`.
pub open spec fn generator_args(
    path: Seq<char>,
    templates: Seq<char>,
    seed: Seq<char>,
) -> Seq<Seq<char>> {
    seq![
        "generate"@,
        "-g"@,
        file_name(templates),
        "-i"@,
        SPEC@,
        "-o"@,
        path,
        "-t"@,
        templates,
        "--additional-properties"@,
        "npmVersion="@ + seed + ",artifactVersion="@ + seed,
    ]
}

/// The arguments of the Gradle publication.
pub open spec fn gradle_args(tag: Seq<char>) -> Seq<Seq<char>> {
    seq![
        "publishAllPublicationsToGitHubPackagesRepository"@,
        "-PlibraryVersion="@ + bare(tag),
    ]
}

// ---------------------------------------------------------------------------
// The functions
// ---------------------------------------------------------------------------

/// `git push origin main`. The `git` binary reads the user's credential
/// helper, SSH agent and keychain.
pub fn push_main_command() -> (r: CommandLine)
    ensures
        command_is(r, "git"@, seq!["push"@, "origin"@, "main"@]),
{
    let args: Vec<String> = vec!["push".to_owned(), "origin".to_owned(), "main".to_owned()];
    assert(texts(args@) =~= seq!["push"@, "origin"@, "main"@]);
    CommandLine { program: "git".to_owned(), args }
}

/// `git push origin` with the tag.
pub fn push_tag_command(tag: &str) -> (r: CommandLine)
    ensures
        command_is(r, "git"@, seq!["push"@, "origin"@, tag@]),
{
    let args: Vec<String> = vec!["push".to_owned(), "origin".to_owned(), tag.to_owned()];
    assert(texts(args@) =~= seq!["push"@, "origin"@, tag@]);
    CommandLine { program: "git".to_owned(), args }
}

/// The Gradle publication to GitHub Packages, under the version of the tag.
pub fn gradle_publish_command(tag: &str) -> (r: CommandLine)
    ensures
        command_is(r, "./gradlew"@, gradle_args(tag@)),
{
    let mut version: String = "-PlibraryVersion=".to_owned();
    version.append(without_v(tag).as_str());
    let args: Vec<String> = vec![
        "publishAllPublicationsToGitHubPackagesRepository".to_owned(),
        version,
    ];
    assert(texts(args@) =~= gradle_args(tag@));
    CommandLine { program: "./gradlew".to_owned(), args }
}

/// `gh release create` for the tag, with the assets attached.
pub fn gh_release_command(tag: &str, assets: &Vec<String>) -> (r: CommandLine)
    ensures
        command_is(r, "gh"@, seq!["release"@, "create"@, tag@] + texts(assets@)),
{
    let mut args: Vec<String> = vec!["release".to_owned(), "create".to_owned(), tag.to_owned()];
    let ghost head = args@;
    assert(texts(head) =~= seq!["release"@, "create"@, tag@]);
    let mut files = copy_strings(assets);
    let ghost tail = files@;
    args.append(&mut files);
    assert(texts(args@) =~= texts(head) + texts(tail));
    CommandLine { program: "gh".to_owned(), args }
}

/// `openapi-generator generate` for the repository at `path`, from these
/// templates, with the version `seed` in what it writes.
pub fn generator_command(path: &str, templates: &str, seed: &str) -> (r: CommandLine)
    ensures
        command_is(r, "openapi-generator"@, generator_args(path@, templates@, seed@)),
{
    let mut properties: String = "npmVersion=".to_owned();
    properties.append(seed);
    properties.append(",artifactVersion=");
    properties.append(seed);
    let args: Vec<String> = vec![
        "generate".to_owned(),
        "-g".to_owned(),
        file_name_of(templates),
        "-i".to_owned(),
        SPEC.to_owned(),
        "-o".to_owned(),
        path.to_owned(),
        "-t".to_owned(),
        templates.to_owned(),
        "--additional-properties".to_owned(),
        properties,
    ];
    assert(texts(args@) =~= generator_args(path@, templates@, seed@));
    CommandLine { program: "openapi-generator".to_owned(), args }
}

/// Whether a child of the repository directory survives the wipe before the
/// generator runs: only `.git` does.
pub fn survives_wipe(name: &str) -> (r: bool)
    ensures
        r == (name@ == ".git"@),
{
    same_str(name, ".git")
}

/// The URL to add as the remote `origin`: the configured one, where the
/// repository has no such remote. One that is there is never changed.
pub fn remote_to_add(has_origin: bool, configured: &Option<String>) -> (r: Option<String>)
    ensures
        match r {
            Some(url) => !has_origin && configured is Some && url@ == configured->0@,
            None => has_origin || configured is None,
        },
{
    if has_origin {
        return None;
    }
    match configured {
        Some(url) => Some(url.clone()),
        None => None,
    }
}

/// A command is its program and its arguments, one by one.
pub proof fn law_command(command: CommandLine, program: Seq<char>, args: Seq<Seq<char>>)
    ensures
        command_is(command, program, args) <==> command.program@ == program && command.args@.len()
            == args.len() && forall|i: int|
            0 <= i < args.len() ==> (#[trigger] command.args@[i])@ == args[i],
{
    let own = texts(command.args@);
    if command_is(command, program, args) {
        assert forall|i: int| 0 <= i < args.len() implies (#[trigger] command.args@[i])@
            == args[i] by {
            assert(own[i] == command.args@[i]@);
        }
    }
    if command.args@.len() == args.len() && forall|i: int|
        0 <= i < args.len() ==> (#[trigger] command.args@[i])@ == args[i] {
        assert forall|i: int| 0 <= i < args.len() implies own[i] == args[i] by {
            assert(command.args@[i]@ == args[i]);
        }
        assert(own =~= args);
    }
}

/// The generator is told its name, which is the last component of the path of
/// the templates, and, each behind its flag, the API description, where to
/// write, the templates, and the version for both kinds of package.
pub proof fn law_generator_arguments(
    path: Seq<char>,
    dir: Seq<char>,
    name: Seq<char>,
    seed: Seq<char>,
)
    requires
        !name.contains('/'),
    ensures
        ({
            let templates = dir + seq!['/'] + name;
            let args = generator_args(path, templates, seed);
            &&& args.len() == 11
            &&& args[0] == "generate"@
            &&& args[1] == "-g"@ && args[2] == name
            &&& args[3] == "-i"@ && args[4] == "https://localhost:443/api-docs/openapi.json"@
            &&& args[5] == "-o"@ && args[6] == path
            &&& args[7] == "-t"@ && args[8] == templates
            &&& args[9] == "--additional-properties"@
            &&& args[10] == "npmVersion="@ + seed + ",artifactVersion="@ + seed
        }),
        generator_args(path, name, seed)[2] == name,
{
    law_file_name(dir, name);
}

/// Gradle publishes under the version of the tag, without its leading `v`.
pub proof fn law_gradle_arguments(version: Seq<char>)
    ensures
        gradle_args(seq!['v'] + version) == seq![
            "publishAllPublicationsToGitHubPackagesRepository"@,
            "-PlibraryVersion="@ + version,
        ],
{
    law_bare(version);
}

} // verus!
