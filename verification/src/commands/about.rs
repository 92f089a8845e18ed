//! The `about` command: what the bot is and where its source lives.

use vstd::prelude::*;
use crate::commands::{CommandError, EMBED_COLOR, built, finish};
use crate::embed::{AuthorView, Embed, EmbedAuthor, EmbedField, EmbedFooter, EmbedView, FooterView,
    empty_embed, has_prefix, image_url, plain_field};

verus! {

/// The `about` command.
pub struct About;

/// The avatar shown beside the embed's title.
pub open spec fn about_icon_url() -> Seq<char> {
    "https://cdn.discordapp.com/avatars/936431574310879332/9a46b39c031ca84e8351ee97867afc96.png"@
}

/// The repository linked from the embed.
pub open spec fn repository_url() -> Seq<char> {
    "https://github.com/TeamHarTex/HarTex"@
}

/// The invite link handed to the footer's message as `inviteLink`.
pub open spec fn invite_link() -> Seq<char> {
    "https://discord.gg/Xu8453VBAv"@
}

/// The embed of the `about` command for the given localized texts.
pub open spec fn about_view(title: Seq<char>, description: Seq<char>, repo_field_name: Seq<char>, footer: Seq<char>) -> EmbedView {
    EmbedView {
        author: Some(AuthorView { name: title, icon_url: Some(about_icon_url()) }),
        color: Some(EMBED_COLOR),
        description: Some(description),
        fields: seq![plain_field(repo_field_name, repository_url())],
        footer: Some(FooterView { text: footer, icon_url: None }),
        ..empty_embed()
    }
}

impl About {
    /// The invite link that the footer's message mentions.
    pub fn invite_link(&self) -> (r: &'static str)
        ensures
            r@ == invite_link(),
    {
        "https://discord.gg/Xu8453VBAv"
    }

    /// Executes the command up to its response: the embed with the title
    /// beside the bot's avatar, the description, a field linking the
    /// repository and the footer.
    pub fn execute(&self, title: String, description: String, repo_field_name: String, footer: String) -> (r: Result<Embed, CommandError>)
        ensures
            built(r, about_view(title@, description@, repo_field_name@, footer@)),
            r matches Ok(e) ==> e@.author == Some(AuthorView { name: title@, icon_url: Some(
                    "https://cdn.discordapp.com/avatars/936431574310879332/9a46b39c031ca84e8351ee97867afc96.png"@) })
                && e@.description == Some(description@)
                && e@.fields.len() == 1 && e@.fields[0].name == repo_field_name@
                && e@.fields[0].value == "https://github.com/TeamHarTex/HarTex"@
                && e@.footer == Some(FooterView { text: footer@, icon_url: None })
                && e@.color == Some(0x41_A0_DEu32) && e@.title is None,
    {
        let ghost (t, d, n, f) = (title@, description@, repo_field_name@, footer@);
        let icon = String::from_str("https://cdn.discordapp.com/avatars/936431574310879332/9a46b39c031ca84e8351ee97867afc96.png");
        proof {
            reveal_strlit("https://cdn.discordapp.com/avatars/936431574310879332/9a46b39c031ca84e8351ee97867afc96.png");
            reveal_strlit("https:");
            assert(icon@.subrange(0, 6) =~= "https:"@);
        }
        let icon = match image_url(icon) {
            Ok(url) => url,
            Err(error) => return Err(CommandError::ImageSource(error)),
        };
        let embed = Embed::new()
            .author(EmbedAuthor { name: title, icon_url: Some(icon) })
            .color(EMBED_COLOR)
            .description(description)
            .field(EmbedField {
                name: repo_field_name,
                value: String::from_str("https://github.com/TeamHarTex/HarTex"),
                inline: false,
            })
            .footer(EmbedFooter { text: footer, icon_url: None });
        assert(embed@ =~= about_view(t, d, n, f));
        finish(embed)
    }
}

} // verus!
