//! The arguments of the restoration commands.

use vstd::prelude::*;

use crate::android::report::text_view;
use crate::io::paths::{default_module_index, index_path, text_of, Platform};
use crate::metadata::restore::DEFAULT_METHOD_TOKEN_SEED;

verus! {

/// What is restored of a protected library, and where to.
#[derive(Debug, Clone)]
pub struct RestoreSoJob {
    pub input: String,
    pub output: String,
    pub index: Option<String>,
    pub report: Option<String>,
    pub dump_auxiliary: Option<String>,
    pub outer_only: bool,
    pub preserve_entrypoint: bool,
}

/// What is restored of a metadata file, and where to.
#[derive(Debug, Clone)]
pub struct RestoreMetadataJob {
    pub input: String,
    pub output: String,
    pub seed: u32,
    pub report: Option<String>,
}

impl RestoreMetadataJob {
    /// A job with the known seed and no report.
    #[must_use]
    pub fn new(input: String, output: String) -> (r: Self)
        ensures
            r.input == input,
            r.output == output,
            r.seed == DEFAULT_METHOD_TOKEN_SEED,
            r.report is None,
    {
        RestoreMetadataJob { input, output, seed: DEFAULT_METHOD_TOKEN_SEED, report: None }
    }
}

/// The options of the restoration of a library.
#[derive(Debug, Clone)]
pub struct RestoreOptions {
    pub input: String,
    pub output: String,
    pub index: String,
    pub dump_auxiliary: Option<String>,
    pub outer_only: bool,
    pub preserve_entrypoint: bool,
}

/// The options that a job comes to: without an index of its own, the one beside the
/// library.
pub fn restore_options(p: Platform, job: &RestoreSoJob) -> (r: RestoreOptions)
    ensures
        r.input@ == job.input@,
        r.output@ == job.output@,
        r.index@ == (match job.index {
            Some(t) => t@,
            None => text_of(p, index_path(p, job.input@)),
        }),
        text_view(r.dump_auxiliary) == text_view(job.dump_auxiliary),
        r.outer_only == job.outer_only,
        r.preserve_entrypoint == job.preserve_entrypoint,
{
    let index: String = match &job.index {
        Some(t) => t.clone(),
        None => default_module_index(p, job.input.as_str()),
    };
    let dump_auxiliary: Option<String> = match &job.dump_auxiliary {
        Some(t) => Some(t.clone()),
        None => None,
    };
    RestoreOptions {
        input: job.input.clone(),
        output: job.output.clone(),
        index,
        dump_auxiliary,
        outer_only: job.outer_only,
        preserve_entrypoint: job.preserve_entrypoint,
    }
}

} // verus!
