//! What a client is told: places in a document, notices and what the server can do.

use vstd::prelude::*;

verus! {

/// A place in a document: a line and a character in it, both counted from 0.
#[derive(Clone, Copy, Debug, PartialEq, Eq, Structural)]
pub struct Position {
    pub line: u32,
    pub character: u32,
}

/// A part of a document, from `start` up to `end`.
#[derive(Clone, Copy, Debug, PartialEq, Eq, Structural)]
pub struct Range {
    pub start: Position,
    pub end: Position,
}

/// How grave a notice is.
#[derive(Clone, Copy, Debug, PartialEq, Eq, Structural)]
pub enum Level {
    Error,
    Warning,
    Info,
}

/// Where a notice goes: before the user's eyes, or into the log.
#[derive(Clone, Copy, Debug, PartialEq, Eq, Structural)]
pub enum Channel {
    Show,
    Log,
}

/// A notice to the client.
#[derive(Debug, PartialEq)]
pub struct Notice {
    pub channel: Channel,
    pub level: Level,
    pub text: String,
}

/// A part of a document that leads elsewhere.
#[derive(Debug, PartialEq)]
pub struct DocumentLink {
    pub range: Range,
    pub target: String,
}

/// What is known of a part of a document, in Markdown.
#[derive(Debug, PartialEq)]
pub struct Hover {
    pub value: String,
    pub range: Range,
}

/// A change of a document that settles an alert.
#[derive(Debug, PartialEq)]
pub struct QuickFix {
    /// What is done, as the linter calls it.
    pub action: String,
    /// What the alert is about.
    pub matched: String,
    pub range: Range,
    pub new_text: String,
}

/// What the server can do.
#[derive(Debug, PartialEq)]
pub struct Capabilities {
    /// It is told when a document is opened or closed.
    pub open_close: bool,
    /// A change comes with the whole text.
    pub full_text_on_change: bool,
    /// So does a save.
    pub text_on_save: bool,
    pub hover: bool,
    pub commands: Vec<String>,
    /// It offers links, which need no second request.
    pub links: bool,
    pub resolves_links: bool,
    /// It offers completions, which need no second request.
    pub completions: bool,
    pub resolves_completions: bool,
    /// It offers quick fixes.
    pub quick_fixes: bool,
    pub code_lenses: bool,
    pub resolves_code_lenses: bool,
    /// It takes several workspace folders, and is told when they change.
    pub workspace_folders: bool,
    pub folder_changes: bool,
}

/// Whether a notice says `text`, at this level and in this place.
pub open spec fn says(notice: Notice, channel: Channel, level: Level, text: Seq<char>) -> bool {
    notice.channel == channel && notice.level == level && notice.text@ == text
}

/// A notice says its text, at its level and in its place.
pub proof fn notices_say_what_they_say(
    notice: Notice,
    channel: Channel,
    level: Level,
    text: Seq<char>,
)
    requires
        says(notice, channel, level, text),
    ensures
        notice.channel == channel,
        notice.level == level,
        notice.text@ == text,
{
}

} // verus!
