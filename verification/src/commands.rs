//! The bot's slash commands: the embeds and responses they build from the
//! localized texts and the data fetched for them.

use vstd::prelude::*;
use crate::embed::{Embed, EmbedView, EmbedValidationError, ImageSourceUrlError, validation};

pub mod about;
pub mod contributors;
pub mod latency;
pub mod serverinfo;
pub mod info_bot;
pub mod info_user;

verus! {

/// The color of the bot's embeds.
pub const EMBED_COLOR: u32 = 0x41_A0_DE;

/// Why a command could not build its response.
pub enum CommandError {
    /// An image URL was refused.
    ImageSource(ImageSourceUrlError),
    /// The embed broke one of Discord's limits.
    Validation(EmbedValidationError),
}

/// What building an embed with the view `v` gives: the embed, or the first
/// limit that it breaks.
pub open spec fn built(r: Result<Embed, CommandError>, v: EmbedView) -> bool {
    match r {
        Ok(e) => e@ == v && validation(v) is Ok,
        Err(CommandError::Validation(err)) => validation(v) == Err::<(), EmbedValidationError>(err),
        Err(CommandError::ImageSource(_)) => false,
    }
}

/// Validates an embed and hands it back if it keeps Discord's limits.
pub fn finish(embed: Embed) -> (r: Result<Embed, CommandError>)
    ensures
        built(r, embed@),
{
    match embed.validate() {
        Ok(()) => Ok(embed),
        Err(error) => Err(CommandError::Validation(error)),
    }
}

/// The kind of an interaction response.
pub enum InteractionResponseType {
    /// Respond with a message, showing the user's input.
    ChannelMessageWithSource,
}

/// The message data of an interaction response.
pub struct InteractionResponseData {
    pub content: Option<String>,
    pub embeds: Vec<Embed>,
}

/// A response to an interaction.
pub struct InteractionResponse {
    pub kind: InteractionResponseType,
    pub data: Option<InteractionResponseData>,
}

/// A message response that carries the given embeds and nothing else.
pub fn embed_response(embeds: Vec<Embed>) -> (r: InteractionResponse)
    ensures
        r.kind == InteractionResponseType::ChannelMessageWithSource,
        r.data is Some,
        r.data->0.content is None,
        r.data->0.embeds@ == embeds@,
{
    InteractionResponse {
        kind: InteractionResponseType::ChannelMessageWithSource,
        data: Some(InteractionResponseData { content: None, embeds }),
    }
}

/// A message response that carries the given text and nothing else.
pub fn content_response(content: String) -> (r: InteractionResponse)
    ensures
        r.kind == InteractionResponseType::ChannelMessageWithSource,
        r.data is Some,
        r.data->0.content == Some(content),
        r.data->0.embeds@.len() == 0,
{
    InteractionResponse {
        kind: InteractionResponseType::ChannelMessageWithSource,
        data: Some(InteractionResponseData { content: Some(content), embeds: Vec::new() }),
    }
}

} // verus!
