//! The configuration: which repositories to release, and how.

use crate::text::same_str;
use vstd::prelude::*;

verus! {

/// Upstream API spec consumed by every openapi-kind entry. Hardcoded for now;
/// move to build.json if a second spec source shows up.
pub const SPEC: &'static str = "https://localhost:443/api-docs/openapi.json";

/// What `build.json` holds: the repositories, in the order of their release.
pub type BuildConfig = Vec<Entry>;

/// One repo to release. `path` is the local checkout; `remote` is informational
/// (the existing git config in the repo is the source of truth for the push
/// URL). `kind: "openapi"` means pre-wipe + run openapi-generator before the
/// canonical commit pass; absent or anything else means just commit pass.
#[derive(Debug)]
pub struct Entry {
    pub path: String,
    pub remote: Option<String>,
    pub kind: Option<String>,
    pub data: Option<EntryData>,
    /// Opts into README regeneration from the files that these patterns match.
    pub readme: Option<GlobList>,
    /// The files that are kept from the commit-message prompt.
    pub commit_ignore: Option<GlobList>,
    /// The files that are attached to the GitHub release.
    pub release: Option<GlobList>,
}

/// Per-entry knobs consumed when `kind == "openapi"`.
#[derive(Debug)]
pub struct EntryData {
    pub templates: Option<String>,
    pub delete_all_except_git: bool,
}

/// A list of glob patterns.
#[derive(Debug)]
pub struct GlobList {
    pub glob: Vec<String>,
}

/// What is missing in an entry.
#[derive(Debug)]
pub enum ConfigError {
    /// An openapi entry has no `data`.
    MissingData { path: String },
    /// An openapi entry has no `data.templates`.
    MissingTemplates { path: String },
}

/// What an openapi entry does before the commit pass.
#[derive(Debug)]
pub struct OpenapiStep {
    /// The templates that the generator works from.
    pub templates: String,
    /// Whether everything but `.git` is deleted first.
    pub wipe: bool,
}

impl Default for EntryData {
    fn default() -> (r: EntryData)
        ensures
            r.templates is None,
            !r.delete_all_except_git,
    {
        EntryData { templates: None, delete_all_except_git: false }
    }
}

/// Whether an entry is of the kind `openapi`.
pub open spec fn is_openapi(entry: Entry) -> bool {
    entry.kind is Some && entry.kind->0@ == "openapi"@
}

/// Whether this is what is missing in an entry.
pub open spec fn config_error_is(entry: Entry, e: ConfigError) -> bool {
    match e {
        ConfigError::MissingData { path } => {
            &&& is_openapi(entry)
            &&& entry.data is None
            &&& path@ == entry.path@
        },
        ConfigError::MissingTemplates { path } => {
            &&& is_openapi(entry)
            &&& entry.data is Some
            &&& entry.data->0.templates is None
            &&& path@ == entry.path@
        },
    }
}

/// Whether an openapi entry names its templates.
pub open spec fn names_templates(entry: Entry) -> bool {
    entry.data is Some && entry.data->0.templates is Some
}

/// Whether an entry is of the kind `openapi`.
pub fn wants_openapi(entry: &Entry) -> (r: bool)
    ensures
        r == is_openapi(*entry),
{
    match &entry.kind {
        Some(kind) => same_str(kind.as_str(), "openapi"),
        None => false,
    }
}

/// What an entry does before the commit pass: nothing unless it is an openapi
/// entry, which has to name its templates.
pub fn openapi_step(entry: &Entry) -> (r: Result<Option<OpenapiStep>, ConfigError>)
    ensures
        match r {
            Ok(None) => !is_openapi(*entry),
            Ok(Some(step)) => {
                &&& is_openapi(*entry)
                &&& names_templates(*entry)
                &&& step.templates@ == entry.data->0.templates->0@
                &&& step.wipe == entry.data->0.delete_all_except_git
            },
            Err(e) => config_error_is(*entry, e),
        },
{
    if !wants_openapi(entry) {
        return Ok(None);
    }
    match &entry.data {
        None => Err(ConfigError::MissingData { path: entry.path.clone() }),
        Some(data) => match &data.templates {
            None => Err(ConfigError::MissingTemplates { path: entry.path.clone() }),
            Some(templates) => Ok(
                Some(
                    OpenapiStep { templates: templates.clone(), wipe: data.delete_all_except_git },
                ),
            ),
        },
    }
}

/// An entry is of the kind `openapi` exactly where that is what its `kind` says;
/// it names its templates exactly where its data holds them.
pub proof fn law_openapi_entries(entry: Entry)
    ensures
        is_openapi(entry) <==> entry.kind is Some && entry.kind->0@ == seq![
            'o',
            'p',
            'e',
            'n',
            'a',
            'p',
            'i',
        ],
        names_templates(entry) <==> entry.data is Some && entry.data->0.templates is Some,
{
    reveal_strlit("openapi");
    assert("openapi"@ =~= seq!['o', 'p', 'e', 'n', 'a', 'p', 'i']);
}

/// What is missing is the data of an openapi entry, or the templates in it, and
/// it is said of which entry.
pub proof fn law_config_errors(entry: Entry, e: ConfigError)
    requires
        config_error_is(entry, e),
    ensures
        is_openapi(entry),
        !names_templates(entry),
        match e {
            ConfigError::MissingData { path } => entry.data is None && path@ == entry.path@,
            ConfigError::MissingTemplates { path } => entry.data is Some && path@ == entry.path@,
        },
{
}

} // verus!
