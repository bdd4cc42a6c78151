# buidl

A JSON-driven build orchestrator that takes repositories from their staged
changes to a pushed tag: it drafts a Conventional Commits message with a local
model, raises the version by what the message means, regenerates the README,
commits, pushes, tags, publishes Gradle artifacts and creates GitHub releases.
The decisions are a library that is proved with Verus; the program around it
carries them out.

## Layout

| Path | What it holds |
|------|---------------|
| `src/pipeline.rs` | The release of one entry of `build.json`, as a state machine with the laws of its runs |
| `src/android.rs`, `src/commit.rs` | The `android` and `commit` commands, in the same form |
| `src/flow.rs` | The actions that the commands ask for, and the events that answer them |
| `src/tags.rs` | Reading tags, ordering versions, cutting the next tag |
| `src/message.rs`, `src/staging.rs` | The commit message: what the model sees, what is accepted, what it means |
| `src/readme.rs` | The sources of the README, the prompt, and the reply without its code fence |
| `src/versions.rs`, `src/wrapper.rs` | Version markers and the Gradle wrapper in generated code |
| `src/globs.rs` | Which paths the patterns of the configuration pick out |
| `src/lm.rs` | The request to the model, and what is made of the response |
| `src/config.rs`, `src/detect.rs`, `src/publish.rs` | The configuration, the language of a repository, the commands that are run |
| `src/text.rs`, `src/utf8.rs` | Texts as sequences of characters |
| `app/` | The program: command line, `build.json`, git, files, HTTP, processes |

## Configuration

`build.json`, or the file that `--config` names, is a list of entries:

```json
[
  {
    "path": "/absolute/path/to/repo",
    "remote": "https://github.com/user/repo",
    "kind": "openapi",
    "data": { "templates": "/path/to/templates/swift6", "deleteAllExceptGit": true },
    "readme": { "glob": ["*.swift", "Sources/**/*.swift"] },
    "commitIgnore": { "glob": ["*.lock", "dist/**"] },
    "release": { "glob": ["build/artifact.bin"] }
  }
]
```

Only `path` is required. A pattern without a `/` matches at any depth; one with
a `/` is held against the whole path, and only a `/` matches a `/`.

## What is not proved

The proofs rest on four statements about code outside the library: what
`String::push` and `std::str::from_utf8` do, that matching a pattern with the
`glob` crate depends on nothing but the pattern, the path and one option (and
that `*` matches whatever has no `/`), and that the text which `serde_json` finds
in a response depends on nothing but the response. `src/globs.rs` takes `/` for
the only path separator.
