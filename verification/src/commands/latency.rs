//! The `latency` command: answers first, then edits the answer to show how
//! long the first answer took.

use vstd::prelude::*;
use crate::commands::{InteractionResponse, InteractionResponseType, content_response};

verus! {

/// The `latency` command.
pub struct Latency;

impl Latency {
    /// The first answer: the localized initial text as the message.
    pub fn initial_response(&self, initial: String) -> (r: InteractionResponse)
        ensures
            r.kind == InteractionResponseType::ChannelMessageWithSource,
            r.data is Some,
            r.data->0.content == Some(initial),
            r.data->0.embeds@.len() == 0,
    {
        content_response(initial)
    }

    /// The content that replaces the first answer: the localized text that
    /// reports the latency.
    pub fn edited_content(&self, edited: String) -> (r: Option<String>)
        ensures
            r == Some(edited),
    {
        Some(edited)
    }
}

} // verus!
