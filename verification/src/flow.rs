//! What the commands ask of the outside world, and what it answers.

use crate::config::ConfigError;
use crate::detect::RepoSnapshot;
use crate::lm::{
    chat_request, ChatRequest, LM_ENDPOINT, LM_MAX_TOKENS, LM_MODEL, LM_TIMEOUT_SECS, LmError,
};
use crate::message::MessageError;
use crate::publish::CommandLine;
use crate::staging::FileDelta;
use crate::tags::TagError;
use vstd::prelude::*;

verus! {

/// What is to be done next. Each action but the last two is answered with an
/// event, which its comment names.
#[derive(Debug)]
pub enum Action {
    /// List the tags of the repository: `Event::Tags`.
    ReadTags,
    /// Delete everything in the repository that does not survive a wipe:
    /// `Event::Done`.
    Wipe,
    /// Run the generator: `Event::Done`.
    Generate { command: CommandLine },
    /// Look at the files that tell the language: `Event::Snapshot`.
    Inspect,
    /// Make the Gradle wrapper executable and patch its version: `Event::Done`.
    PatchGradle,
    /// Add the remote `origin` if it is missing, stage everything that none of
    /// the patterns `skip` ignores, and list what differs from HEAD:
    /// `Event::Staged`.
    Stage { remote: Option<String>, skip: Vec<String> },
    /// List what is staged, without staging anything: `Event::Staged`.
    ListStaged,
    /// Render the staged patch of these paths: `Event::Patch`.
    RenderDiff { paths: Vec<String> },
    /// Put this to the model: `Event::Response`.
    AskModel { request: ChatRequest },
    /// Look whether the repository holds generated code: `Event::Generated`.
    ProbeGenerated,
    /// Bring the version markers in line and stage again: `Event::Done`.
    SyncVersions { version: String },
    /// Bring the version in `build.gradle.kts` in line, if that file is there,
    /// and stage again what none of the patterns `skip` ignores: `Event::Done`.
    SyncKotlin { version: String, skip: Vec<String> },
    /// List the files of the index: `Event::Index`.
    ListIndex,
    /// Read these files of the repository: `Event::Files`.
    ReadFiles { paths: Vec<String> },
    /// Write `README.md` and stage it: `Event::Done`.
    WriteReadme { text: String },
    /// Commit the index: `Event::Done`.
    Commit { message: String },
    /// Push the branch: `Event::Done`.
    Push { command: CommandLine },
    /// Tag HEAD and push the tag: `Event::Done`.
    TagAndPush { tag: String, command: CommandLine },
    /// Publish the artifacts: `Event::Done`.
    Publish { command: CommandLine },
    /// Create the GitHub release of the tag, with the files that these patterns
    /// match: `Event::Done`.
    Release { tag: String, globs: Vec<String> },
    /// All is done.
    Finish(Outcome),
    /// Give up.
    Abort(Failure),
}

/// What came of an action.
#[derive(Debug)]
pub enum Event {
    Done,
    Tags(Vec<String>),
    Snapshot(RepoSnapshot),
    /// What differs between HEAD and the index.
    Staged(Vec<FileDelta>),
    /// The origin and the bytes of each line of a patch.
    Patch(Vec<(char, Vec<u8>)>),
    /// The body of a response of the model.
    Response(Vec<u8>),
    /// Whether the repository holds generated code.
    Generated(bool),
    Index(Vec<String>),
    /// The paths and the contents of files.
    Files(Vec<(String, Vec<u8>)>),
}

/// How a command ends well.
#[derive(Debug)]
pub enum Outcome {
    /// Nothing had changed.
    NothingToRelease,
    /// The tag was pushed.
    Released { tag: String },
    /// The message of the `commit` command.
    Message { text: String },
}

/// Why a command gives up.
#[derive(Debug)]
pub enum Failure {
    Config(ConfigError),
    /// A difference between HEAD and the index has no path.
    NoPath,
    /// A line of the patch is not UTF-8.
    PatchNotUtf8,
    Lm(LmError),
    Message(MessageError),
    Tag(TagError),
    /// There is nothing to write a message on.
    NothingStaged,
    /// The event is no answer to the action.
    Unexpected,
}

/// Whether an action puts this prompt to the model.
pub open spec fn asks(action: Action, prompt: Seq<char>) -> bool {
    match action {
        Action::AskModel { request } => {
            &&& request.url@ == LM_ENDPOINT@
            &&& request.timeout_secs == LM_TIMEOUT_SECS
            &&& request.model@ == LM_MODEL@
            &&& request.content@ == prompt
            &&& request.temperature_tenths == 2
            &&& request.max_tokens == LM_MAX_TOKENS
            &&& !request.enable_thinking
        },
        _ => false,
    }
}

/// The action that puts a prompt to the model.
pub(crate) fn ask(prompt: &str) -> (r: Action)
    ensures
        asks(r, prompt@),
{
    Action::AskModel { request: chat_request(prompt) }
}

/// Whether an action is the answer to an event that nothing asked for.
pub open spec fn is_unexpected(action: Action) -> bool {
    action == Action::Abort(Failure::Unexpected)
}

/// An action puts a prompt to the model exactly where it is a request to it with
/// that prompt and the settings that all requests have.
pub proof fn law_asking(action: Action, prompt: Seq<char>)
    ensures
        asks(action, prompt) <==> action is AskModel && action->request.content@ == prompt
            && action->request.url@ == LM_ENDPOINT@ && action->request.model@ == LM_MODEL@
            && action->request.timeout_secs == 1800 && action->request.max_tokens == 8000
            && action->request.temperature_tenths == 2 && !action->request.enable_thinking,
{
}

} // verus!
