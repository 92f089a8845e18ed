//! The `serverinfo` command: the server's name, icon and identifier.

use vstd::prelude::*;
use crate::commands::{CommandError, EMBED_COLOR, built, finish};
use crate::embed::{AuthorView, Embed, EmbedAuthor, EmbedField, EmbedView, accepted_url, empty_embed,
    image_url, plain_field};
use crate::text::{decimal, decimal_string};

verus! {

/// The `serverinfo` command.
pub struct ServerInfo;

/// The guild that the command describes.
pub struct GuildInfo {
    pub id: u64,
    pub name: String,
    /// The URL of the guild's icon on Discord's CDN.
    pub icon_url: String,
}

/// The embed of the `serverinfo` command.
pub open spec fn serverinfo_view(guild: GuildInfo, id_field_name: Seq<char>) -> EmbedView {
    EmbedView {
        author: Some(AuthorView { name: guild.name@, icon_url: Some(guild.icon_url@) }),
        color: Some(EMBED_COLOR),
        fields: seq![plain_field(id_field_name, decimal(guild.id as nat))],
        ..empty_embed()
    }
}

impl ServerInfo {
    /// Executes the command up to its response: the embed with the guild's
    /// name beside its icon, and a field with the guild's identifier in
    /// decimal.
    pub fn execute(&self, guild: GuildInfo, id_field_name: String) -> (r: Result<Embed, CommandError>)
        ensures
            !accepted_url(guild.icon_url@) ==> (r matches Err(CommandError::ImageSource(e)) && e.url@ == guild.icon_url@),
            accepted_url(guild.icon_url@) ==> built(r, serverinfo_view(guild, id_field_name@)),
            r matches Ok(e) ==> e@.author == Some(AuthorView { name: guild.name@, icon_url: Some(guild.icon_url@) })
                && e@.fields.len() == 1 && e@.fields[0].name == id_field_name@
                && e@.fields[0].value == decimal(guild.id as nat)
                && e@.color == Some(0x41_A0_DEu32),
    {
        let ghost g = guild;
        let ghost n = id_field_name@;
        let icon = match image_url(guild.icon_url) {
            Ok(url) => url,
            Err(error) => return Err(CommandError::ImageSource(error)),
        };
        let embed = Embed::new()
            .color(EMBED_COLOR)
            .author(EmbedAuthor { name: guild.name, icon_url: Some(icon) })
            .field(EmbedField { name: id_field_name, value: decimal_string(guild.id), inline: false });
        assert(embed@.fields =~= serverinfo_view(g, n).fields);
        assert(embed@ =~= serverinfo_view(g, n));
        finish(embed)
    }
}

} // verus!
