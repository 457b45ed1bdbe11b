use vstd::prelude::*;
use std::ops::Range;

use crate::input::Level;
use crate::text::bytes_of;
use vstd::string::StringSliceAdditionalSpecFns;

verus! {

/// A message to be rendered: a title, the source snippets it points into,
/// and footer messages.
pub struct Message<'a> {
    pub level: Level,
    pub id: Option<&'a str>,
    pub title: &'a str,
    pub snippets: Vec<Snippet<'a>>,
    pub footer: Vec<Message<'a>>,
}

/// A piece of source text with annotated byte ranges.
pub struct Snippet<'a> {
    pub origin: Option<&'a str>,
    pub line_start: usize,
    pub source: &'a str,
    pub annotations: Vec<Annotation<'a>>,
    pub fold: bool,
}

/// A labelled byte range of a snippet's source.
pub struct Annotation<'a> {
    pub range: Range<usize>,
    pub label: Option<&'a str>,
    pub level: Level,
}

/// An annotation with its label given as bytes.
pub struct AnnotationModel {
    pub start: usize,
    pub end: usize,
    pub label: Option<Seq<u8>>,
    pub level: Level,
}

/// A snippet with its texts given as bytes.
pub struct SnippetModel {
    pub origin: Option<Seq<u8>>,
    pub line_start: usize,
    pub source: Seq<u8>,
    pub annotations: Seq<AnnotationModel>,
    pub fold: bool,
}

/// A message with its texts given as bytes.
pub struct MessageModel {
    pub level: Level,
    pub id: Option<Seq<u8>>,
    pub title: Seq<u8>,
    pub snippets: Seq<SnippetModel>,
    pub footer: Seq<MessageModel>,
}

pub open spec fn opt_str_bytes(o: Option<&str>) -> Option<Seq<u8>> {
    match o {
        Some(s) => Some(bytes_of(s)),
        None => None,
    }
}

impl<'a> View for Annotation<'a> {
    type V = AnnotationModel;

    open spec fn view(&self) -> AnnotationModel {
        AnnotationModel {
            start: self.range.start,
            end: self.range.end,
            label: opt_str_bytes(self.label),
            level: self.level,
        }
    }
}

impl<'a> View for Snippet<'a> {
    type V = SnippetModel;

    open spec fn view(&self) -> SnippetModel {
        SnippetModel {
            origin: opt_str_bytes(self.origin),
            line_start: self.line_start,
            source: bytes_of(self.source),
            annotations: self.annotations@.map_values(|a: Annotation<'a>| a@),
            fold: self.fold,
        }
    }
}

/// The model of a message, its footer messages modelled in turn.
pub open spec fn message_model<'a>(msg: Message<'a>) -> MessageModel
    decreases msg,
{
    MessageModel {
        level: msg.level,
        id: opt_str_bytes(msg.id),
        title: bytes_of(msg.title),
        snippets: msg.snippets@.map_values(|s: Snippet<'a>| s@),
        footer: Seq::new(
            msg.footer@.len(),
            |i: int|
                if 0 <= i < msg.footer@.len() {
                    proof {
                        assert(decreases_to!(msg.footer => msg.footer@));
                    }
                    message_model(msg.footer@[i])
                } else {
                    arbitrary()
                },
        ),
    }
}

impl<'a> View for Message<'a> {
    type V = MessageModel;

    open spec fn view(&self) -> MessageModel {
        message_model(*self)
    }
}

/// The view of a message's footer holds the views of its footer messages.
pub proof fn lemma_message_footer_view<'a>(msg: Message<'a>)
    ensures
        msg@.footer.len() == msg.footer@.len(),
        forall|i: int| 0 <= i < msg.footer@.len() ==> #[trigger] msg@.footer[i] == msg.footer@[i]@,
{
}

impl<'a> Message<'a> {
    /// A message with no snippets and no footer.
    pub fn new(level: Level, title: &'a str) -> (res: Message<'a>)
        ensures
            res.level == level,
            res.id is None,
            res.title == title,
            res.snippets@.len() == 0,
            res.footer@.len() == 0,
    {
        Message { level, id: None, title, snippets: Vec::new(), footer: Vec::new() }
    }
}

} // verus!
