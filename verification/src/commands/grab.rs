//! A whole session in one file: what is asked of the export.
use vstd::prelude::*;

use crate::error::{ErrorView, SnatchError};
use crate::text;
use crate::text::views;

verus! {

/// What is asked for.
#[derive(Debug, Clone, PartialEq, Eq)]
pub struct GrabArgs {
    /// The session.
    pub session: String,
    /// Where it is written.
    pub output_file: Option<String>,
    /// As it is stored, not for a reader.
    pub raw: bool,
}

/// The words that ask the export for a whole session: its agents too, as stored or with the
/// results of tools.
pub open spec fn export_words(args: GrabArgs) -> Seq<Seq<char>> {
    seq!["grab"@, args.session@, "--combine-agents"@] + (if args.raw {
        seq!["-f"@, "raw-jsonl"@]
    } else {
        seq!["--resolve-tool-results"@]
    }) + (match args.output_file {
        Some(path) => seq!["-O"@, path@],
        None => Seq::empty(),
    })
}

/// The words that ask the export for a whole session.
pub fn run(args: &GrabArgs) -> (r: Vec<String>)
    ensures
        views(r@) == export_words(*args),
{
    let mut words: Vec<String> = Vec::new();
    text::say(&mut words, "grab");
    text::say(&mut words, args.session.as_str());
    text::say(&mut words, "--combine-agents");
    if args.raw {
        text::say(&mut words, "-f");
        text::say(&mut words, "raw-jsonl");
    } else {
        text::say(&mut words, "--resolve-tool-results");
    }
    match &args.output_file {
        Some(path) => {
            text::say(&mut words, "-O");
            text::say(&mut words, path.as_str());
        },
        None => {},
    }
    proof {
        assert(views(words@) =~= export_words(*args));
    }
    words
}

/// The error where the words are not understood.
pub fn words_refused(message: &str) -> (r: SnatchError)
    ensures
        r@ == (ErrorView::ConfigError {
            message: "failed to build export arguments for grab: "@ + message@,
        }),
{
    SnatchError::ConfigError {
        message: text::cat2("failed to build export arguments for grab: ", message),
    }
}

/// Whatever is asked for, the agents of the session come with it.
pub proof fn agents_always_come_along(args: GrabArgs)
    ensures
        export_words(args).contains("--combine-agents"@),
{
    assert(export_words(args)[2] == "--combine-agents"@);
}

} // verus!
