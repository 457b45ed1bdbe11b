//! Severity levels of a report, with an optional custom name.
use vstd::prelude::*;

use crate::renderer::stylesheet::{StyleCodes, Stylesheet};
use crate::snippet::{Message, Title};

verus! {

/// The built-in severities.
#[derive(Clone, Copy, Debug, PartialEq, Eq, Structural)]
pub enum LevelInner {
    Error,
    Warning,
    Info,
    Note,
    Help,
}

/// A severity, possibly shown under a name of the caller's choosing.
///
/// `name` is `None` for the built-in name, `Some(None)` to show no name at
/// all, and `Some(Some(text))` to show `text`.
#[derive(Clone, Copy, Debug)]
pub struct Level<'a> {
    pub name: Option<Option<&'a str>>,
    pub level: LevelInner,
}

/// Another shape of a severity: a built-in one, a named one, or none.
#[derive(Clone, Copy, Debug)]
pub enum Level2<'a> {
    Builtin(LevelInner),
    Custom { name: Option<&'a str>, level: LevelInner },
    Absent,
}

/// The text shown for a built-in severity.
pub open spec fn inner_text(level: LevelInner) -> Seq<char> {
    match level {
        LevelInner::Error => "error"@,
        LevelInner::Warning => "warning"@,
        LevelInner::Info => "info"@,
        LevelInner::Note => "note"@,
        LevelInner::Help => "help"@,
    }
}

/// The text shown for a level: its custom name, nothing, or the built-in name.
pub open spec fn level_text<'a>(level: Level<'a>) -> Seq<char> {
    match level.name {
        Some(Some(name)) => name@,
        Some(None) => Seq::empty(),
        None => inner_text(level.level),
    }
}

impl<'a> Level<'a> {
    /// The built-in `error` level.
    pub fn error() -> (res: Level<'a>)
        ensures
            res.name is None,
            res.level == LevelInner::Error,
    {
        Level { name: None, level: LevelInner::Error }
    }

    /// The built-in `warning` level.
    pub fn warning() -> (res: Level<'a>)
        ensures
            res.name is None,
            res.level == LevelInner::Warning,
    {
        Level { name: None, level: LevelInner::Warning }
    }

    /// The built-in `info` level.
    pub fn info() -> (res: Level<'a>)
        ensures
            res.name is None,
            res.level == LevelInner::Info,
    {
        Level { name: None, level: LevelInner::Info }
    }

    /// The built-in `note` level.
    pub fn note() -> (res: Level<'a>)
        ensures
            res.name is None,
            res.level == LevelInner::Note,
    {
        Level { name: None, level: LevelInner::Note }
    }

    /// The built-in `help` level.
    pub fn help() -> (res: Level<'a>)
        ensures
            res.name is None,
            res.level == LevelInner::Help,
    {
        Level { name: None, level: LevelInner::Help }
    }

    /// Show this level under `text`, or under no name when `text` is `None`.
    pub fn text(self, text: Option<&'a str>) -> (res: Level<'a>)
        ensures
            res.name == Some(text),
            res.level == self.level,
    {
        Level { name: Some(text), level: self.level }
    }

    /// A message of this level.
    pub fn message(self, text: &'a str) -> (res: Message<'a>)
        ensures
            res.level == self,
            res.text == text,
    {
        Message { level: self, text }
    }

    /// A title of this level, with no id.
    pub fn title(self, text: &'a str) -> (res: Title<'a>)
        ensures
            res.level == self,
            res.id is None,
            res.text == text,
    {
        Title { level: self, id: None, text }
    }

    /// The text shown for this level.
    pub fn as_str(&self) -> (s: &'a str)
        ensures
            s@ == level_text(*self),
    {
        match self.name {
            Some(Some(name)) => name,
            Some(None) => {
                proof {
                    reveal_strlit("");
                }
                ""
            },
            None => match self.level {
                LevelInner::Error => {
                    proof {
                        reveal_strlit("error");
                    }
                    "error"
                },
                LevelInner::Warning => {
                    proof {
                        reveal_strlit("warning");
                    }
                    "warning"
                },
                LevelInner::Info => {
                    proof {
                        reveal_strlit("info");
                    }
                    "info"
                },
                LevelInner::Note => {
                    proof {
                        reveal_strlit("note");
                    }
                    "note"
                },
                LevelInner::Help => {
                    proof {
                        reveal_strlit("help");
                    }
                    "help"
                },
            },
        }
    }
}

/// The style a stylesheet gives a severity.
pub open spec fn level_style(level: LevelInner, stylesheet: &Stylesheet) -> &StyleCodes {
    match level {
        LevelInner::Error => &stylesheet.error,
        LevelInner::Warning => &stylesheet.warning,
        LevelInner::Info => &stylesheet.info,
        LevelInner::Note => &stylesheet.note,
        LevelInner::Help => &stylesheet.help,
    }
}

impl LevelInner {
    /// The style of this severity in the stylesheet.
    pub fn style(self, stylesheet: &Stylesheet) -> (res: &StyleCodes)
        ensures
            res == level_style(self, stylesheet),
    {
        match self {
            LevelInner::Error => &stylesheet.error,
            LevelInner::Warning => &stylesheet.warning,
            LevelInner::Info => &stylesheet.info,
            LevelInner::Note => &stylesheet.note,
            LevelInner::Help => &stylesheet.help,
        }
    }
}

impl<'a> Level<'a> {
    /// The style of this level's severity in the stylesheet.
    pub fn style<'s>(&self, stylesheet: &'s Stylesheet) -> (res: &'s StyleCodes)
        ensures
            res == level_style(self.level, stylesheet),
    {
        self.level.style(stylesheet)
    }
}

} // verus!
