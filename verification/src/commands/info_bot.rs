//! The `info bot` subcommand: when the bot started and how fast the
//! backend answers.

use vstd::prelude::*;
use crate::commands::{CommandError, EMBED_COLOR, built, finish};
use crate::embed::{Embed, EmbedField, EmbedView, empty_embed, plain_field};
use crate::markdown::{MarkdownStyle, inline_code_text, relative_timestamp_text};
use crate::text::{decimal, decimal_string};

verus! {

/// The localized texts of the `info bot` embed.
pub struct BotInfoTexts {
    pub botstarted_field_name: String,
    pub latency_field_name: String,
    pub title: String,
}

/// The address of the backend's uptime endpoint on the given domain.
pub open spec fn uptime_uri_text(domain: Seq<char>) -> Seq<char> {
    "http://"@ + domain + "/api/v0110/stats/uptime"@
}

/// The address of the backend's uptime endpoint on the given domain.
pub fn uptime_uri(domain: &str) -> (r: String)
    ensures
        r@ == uptime_uri_text(domain@),
{
    let mut uri = String::from_str("http://");
    uri.append(domain);
    uri.append("/api/v0110/stats/uptime");
    uri
}

/// The embed of the `info bot` subcommand: when the bot started, as a
/// relative timestamp, and the latency in milliseconds, as inline code.
pub open spec fn bot_info_view(t: BotInfoTexts, start_timestamp: u64, latency_ms: u64) -> EmbedView {
    EmbedView {
        color: Some(EMBED_COLOR),
        fields: seq![
            plain_field(t.botstarted_field_name@, relative_timestamp_text(decimal(start_timestamp as nat))),
            plain_field(t.latency_field_name@, inline_code_text(decimal(latency_ms as nat))),
        ],
        title: Some(t.title@),
        ..empty_embed()
    }
}

/// Executes the `info bot` subcommand once the uptime is fetched: the embed
/// with the start time and the latency.
pub fn execute(texts: BotInfoTexts, start_timestamp: u64, latency_ms: u64) -> (r: Result<Embed, CommandError>)
    ensures
        built(r, bot_info_view(texts, start_timestamp, latency_ms)),
        r matches Ok(e) ==> e@.fields.len() == 2
            && e@.fields[0].name == texts.botstarted_field_name@
            && e@.fields[0].value == seq!['<', 't', ':'] + decimal(start_timestamp as nat) + seq![':', 'R', '>']
            && e@.fields[1].name == texts.latency_field_name@
            && e@.fields[1].value == seq!['`'] + decimal(latency_ms as nat) + seq!['`']
            && e@.title == Some(texts.title@),
{
    let ghost t = texts;
    let started = decimal_string(start_timestamp).discord_relative_timestamp();
    let latency = decimal_string(latency_ms).discord_inline_code();
    let embed = Embed::new()
        .color(EMBED_COLOR)
        .field(EmbedField { name: texts.botstarted_field_name, value: started, inline: false })
        .field(EmbedField { name: texts.latency_field_name, value: latency, inline: false })
        .title(texts.title);
    assert(embed@.fields =~= bot_info_view(t, start_timestamp, latency_ms).fields);
    assert(embed@ =~= bot_info_view(t, start_timestamp, latency_ms));
    finish(embed)
}

} // verus!
