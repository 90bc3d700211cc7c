//! What the server says.

use crate::lsp::{says, Channel, Level, Notice};
use crate::text::glued;
use crate::vale::ValeError;
use vstd::prelude::*;

verus! {

/// What became of a compiled rule.
#[derive(Debug)]
pub enum Upload {
    /// Its page was opened.
    Opened,
    /// Its page could not be opened, and why.
    NotOpened(String),
    /// It was not compiled or not uploaded, and why.
    Failed(String),
}

/// A notice.
pub fn notice(channel: Channel, level: Level, text: &str) -> (r: Notice)
    ensures
        says(r, channel, level, text@),
{
    Notice { channel, level, text: text.to_owned() }
}

/// What is logged where something went wrong.
pub fn error_notice(why: &str) -> (r: Notice)
    ensures
        says(r, Channel::Log, Level::Error, "Error: "@ + why@),
{
    notice(Channel::Log, Level::Error, glued("Error: ", why).as_str())
}

/// What is said of an attempt to fetch styles.
pub fn sync_notice(outcome: Result<(), String>) -> (r: Notice)
    ensures
        outcome is Ok ==> says(r, Channel::Show, Level::Info, "Successfully synced Vale config."@),
        outcome matches Err(why) ==> says(
            r,
            Channel::Show,
            Level::Error,
            "Failed to sync CLI: "@ + why@,
        ),
{
    match outcome {
        Ok(_) => notice(Channel::Show, Level::Info, "Successfully synced Vale config."),
        Err(why) => notice(
            Channel::Show,
            Level::Error,
            glued("Failed to sync CLI: ", why.as_str()).as_str(),
        ),
    }
}

/// What is said of an attempt to install the linter.
pub fn install_notices(outcome: Result<String, String>) -> (r: Vec<Notice>)
    ensures
        outcome matches Ok(status) ==> r@.len() == 1 && says(
            r@[0],
            Channel::Log,
            Level::Info,
            status@,
        ),
        outcome matches Err(why) ==> r@.len() == 2 && says(
            r@[0],
            Channel::Show,
            Level::Info,
            why@,
        ) && says(r@[1], Channel::Log, Level::Error, why@),
{
    match outcome {
        Ok(status) => vec![notice(Channel::Log, Level::Info, status.as_str())],
        Err(why) => vec![
            notice(Channel::Show, Level::Info, why.as_str()),
            notice(Channel::Log, Level::Error, why.as_str()),
        ],
    }
}

/// What is said where the linter failed: `shown` is the failure in full, `read` the error that the
/// linter reports, or why there is none in what it wrote.
pub fn lint_notices(shown: &str, read: Result<ValeError, String>) -> (r: (Notice, Notice))
    ensures
        says(r.0, Channel::Log, Level::Error, "Parsing error: "@ + shown@),
        read matches Ok(error) ==> says(
            r.1,
            Channel::Show,
            Level::Error,
            error.line_of_text(),
        ),
        read matches Err(why) ==> says(r.1, Channel::Show, Level::Error, why@),
{
    let logged = notice(Channel::Log, Level::Error, glued("Parsing error: ", shown).as_str());
    let text = match read {
        Ok(error) => error.message(),
        Err(why) => why,
    };
    (logged, notice(Channel::Show, Level::Error, text.as_str()))
}

/// What is said of an attempt to compile a rule.
pub fn upload_notice(outcome: Upload) -> (r: Notice)
    ensures
        match outcome {
            Upload::Opened => says(
                r,
                Channel::Show,
                Level::Info,
                "Successfully compiled rule. Opening Regex101."@,
            ),
            Upload::NotOpened(why) => says(
                r,
                Channel::Show,
                Level::Error,
                "Failed to open Regex101: "@ + why@,
            ),
            Upload::Failed(why) => says(
                r,
                Channel::Show,
                Level::Error,
                "Failed to compile rule: "@ + why@,
            ),
        },
{
    match outcome {
        Upload::Opened => notice(
            Channel::Show,
            Level::Info,
            "Successfully compiled rule. Opening Regex101.",
        ),
        Upload::NotOpened(why) => notice(
            Channel::Show,
            Level::Error,
            glued("Failed to open Regex101: ", why.as_str()).as_str(),
        ),
        Upload::Failed(why) => notice(
            Channel::Show,
            Level::Error,
            glued("Failed to compile rule: ", why.as_str()).as_str(),
        ),
    }
}

} // verus!
