//! The `contributors` command: who works on the bot.

use vstd::prelude::*;
use crate::commands::{CommandError, EMBED_COLOR, built, finish};
use crate::embed::{AuthorView, Embed, EmbedAuthor, EmbedField, EmbedFooter, EmbedView, FooterView,
    empty_embed, plain_field};

verus! {

/// The `contributors` command.
pub struct Contributors;

/// The localized texts of the `contributors` embed.
pub struct ContributorsTexts {
    pub title: String,
    pub description: String,
    pub global_admin_field_name: String,
    pub front_dev_field_name: String,
    pub translation_team_field_name: String,
    pub footer: String,
}

/// The global administrator.
pub open spec fn global_admin() -> Seq<char> {
    "htgazurex1212."@
}

/// The frontend developer.
pub open spec fn front_dev() -> Seq<char> {
    "arizlunari"@
}

/// The translation team, one translator and locale per line.
pub open spec fn translation_team() -> Seq<char> {
    "madonuko (Locale: `ja`)\nteddyji (Locale: `zh-CN`)\nxzihnago (Locale: `zh-TW`)"@
}

/// The embed of the `contributors` command for the given localized texts.
pub open spec fn contributors_view(t: ContributorsTexts) -> EmbedView {
    EmbedView {
        author: Some(AuthorView { name: t.title@, icon_url: None }),
        color: Some(EMBED_COLOR),
        description: Some(t.description@),
        fields: seq![
            plain_field(t.global_admin_field_name@, global_admin()),
            plain_field(t.front_dev_field_name@, front_dev()),
            plain_field(t.translation_team_field_name@, translation_team()),
        ],
        footer: Some(FooterView { text: t.footer@, icon_url: None }),
        ..empty_embed()
    }
}

/// Each contributor is listed under the label of that contributor's own
/// role: the field holding the global administrator is named by the global
/// administrator's label, the one holding the frontend developer by the
/// frontend developer's label, and the translators' by theirs; there are
/// exactly these three fields, in this order.
pub proof fn lemma_contributors_under_their_roles(t: ContributorsTexts)
    ensures
        contributors_view(t).fields.len() == 3,
        contributors_view(t).fields[0].name == t.global_admin_field_name@,
        contributors_view(t).fields[0].value == "htgazurex1212."@,
        contributors_view(t).fields[1].name == t.front_dev_field_name@,
        contributors_view(t).fields[1].value == "arizlunari"@,
        contributors_view(t).fields[2].name == t.translation_team_field_name@,
        contributors_view(t).fields[2].value
            == "madonuko (Locale: `ja`)\nteddyji (Locale: `zh-CN`)\nxzihnago (Locale: `zh-TW`)"@,
        forall|i: int| 0 <= i < 3 && contributors_view(t).fields[i].value == "htgazurex1212."@
            ==> #[trigger] contributors_view(t).fields[i].name == t.global_admin_field_name@,
        forall|i: int| 0 <= i < 3 && contributors_view(t).fields[i].value == "arizlunari"@
            ==> #[trigger] contributors_view(t).fields[i].name == t.front_dev_field_name@,
{
    reveal_strlit("htgazurex1212.");
    reveal_strlit("arizlunari");
    reveal_strlit("madonuko (Locale: `ja`)\nteddyji (Locale: `zh-CN`)\nxzihnago (Locale: `zh-TW`)");
    assert("htgazurex1212."@[0] != "arizlunari"@[0]);
    assert("htgazurex1212."@[0] != "madonuko (Locale: `ja`)\nteddyji (Locale: `zh-CN`)\nxzihnago (Locale: `zh-TW`)"@[0]);
    assert("arizlunari"@[0] != "madonuko (Locale: `ja`)\nteddyji (Locale: `zh-CN`)\nxzihnago (Locale: `zh-TW`)"@[0]);
}

impl Contributors {
    /// Executes the command up to its response: the embed with the title,
    /// the description, one field per role with the people who hold it, and
    /// the footer.
    pub fn execute(&self, texts: ContributorsTexts) -> (r: Result<Embed, CommandError>)
        ensures
            built(r, contributors_view(texts)),
            r matches Ok(e) ==> e@.fields.len() == 3
                && e@.fields[0].name == texts.global_admin_field_name@ && e@.fields[0].value == "htgazurex1212."@
                && e@.fields[1].name == texts.front_dev_field_name@ && e@.fields[1].value == "arizlunari"@
                && e@.fields[2].name == texts.translation_team_field_name@,
    {
        let ghost t = texts;
        let embed = Embed::new()
            .author(EmbedAuthor { name: texts.title, icon_url: None })
            .color(EMBED_COLOR)
            .description(texts.description)
            .field(EmbedField {
                name: texts.global_admin_field_name,
                value: String::from_str("htgazurex1212."),
                inline: false,
            })
            .field(EmbedField { name: texts.front_dev_field_name, value: String::from_str("arizlunari"), inline: false })
            .field(EmbedField {
                name: texts.translation_team_field_name,
                value: String::from_str("madonuko (Locale: `ja`)\nteddyji (Locale: `zh-CN`)\nxzihnago (Locale: `zh-TW`)"),
                inline: false,
            })
            .footer(EmbedFooter { text: texts.footer, icon_url: None });
        assert(embed@.fields =~= contributors_view(t).fields);
        assert(embed@ =~= contributors_view(t));
        finish(embed)
    }
}

} // verus!
