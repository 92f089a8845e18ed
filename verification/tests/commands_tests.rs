use hartex::commands::about::About;
use hartex::commands::contributors::{Contributors, ContributorsTexts};
use hartex::commands::info_bot::{self, uptime_uri, BotInfoTexts};
use hartex::commands::info_user::{avatar_source, execute, user_info_embed, AvatarSource, MemberInfo, UserInfo,
    UserInfoLabels};
use hartex::commands::latency::Latency;
use hartex::commands::serverinfo::{GuildInfo, ServerInfo};
use hartex::commands::{embed_response, CommandError, EMBED_COLOR};
use hartex::embed::EmbedValidationError;

fn s(x: &str) -> String {
    String::from(x)
}

fn labels() -> UserInfoLabels {
    UserInfoLabels {
        generalinfo_field_name: s("General"),
        generalinfo_id_subfield_name: s("ID:"),
        generalinfo_name_subfield_name: s("Name:"),
        generalinfo_created_subfield_name: s("Created:"),
        serverpresence_field_name: s("Presence"),
        serverpresence_nickname_subfield_name: s("Nick:"),
        serverpresence_joined_subfield_name: s("Joined:"),
        serverpresence_roles_subfield_name: s("Roles:"),
        serverpresence_flags_subfield_name: s("Flags:"),
    }
}

fn user(global_name: Option<&str>, avatar: Option<&str>) -> UserInfo {
    UserInfo {
        id: 105484726235607040,
        name: s("someone"),
        global_name: global_name.map(s),
        avatar: avatar.map(s),
        discriminator: 1234,
    }
}

#[test]
fn about_embed() {
    let e = About.execute(s("About"), s("A bot"), s("Repository"), s("Footer")).ok().unwrap();
    assert_eq!(e.color, Some(EMBED_COLOR));
    let author = e.author.as_ref().unwrap();
    assert_eq!(author.name, "About");
    assert_eq!(author.icon_url.as_deref(), Some("https://cdn.discordapp.com/avatars/936431574310879332/9a46b39c031ca84e8351ee97867afc96.png"));
    assert_eq!(e.description.as_deref(), Some("A bot"));
    assert_eq!(e.fields.len(), 1);
    assert_eq!(e.fields[0].name, "Repository");
    assert_eq!(e.fields[0].value, "https://github.com/TeamHarTex/HarTex");
    assert!(!e.fields[0].inline);
    assert_eq!(e.footer.as_ref().unwrap().text, "Footer");
    assert_eq!(About.invite_link(), "https://discord.gg/Xu8453VBAv");
}

#[test]
fn about_embed_too_long() {
    let r = About.execute("x".repeat(300), s("d"), s("r"), s("f"));
    assert!(matches!(r, Err(CommandError::Validation(EmbedValidationError::AuthorNameTooLarge { chars: 300 }))));
}

#[test]
fn contributors_embed() {
    let texts = ContributorsTexts {
        title: s("Contributors"),
        description: s("People"),
        global_admin_field_name: s("Admin"),
        front_dev_field_name: s("Frontend"),
        translation_team_field_name: s("Translators"),
        footer: s("Thanks"),
    };
    let e = Contributors.execute(texts).ok().unwrap();
    assert_eq!(e.author.as_ref().unwrap().name, "Contributors");
    assert!(e.author.as_ref().unwrap().icon_url.is_none());
    let values: Vec<&str> = e.fields.iter().map(|f| f.value.as_str()).collect();
    assert_eq!(values, vec![
        "htgazurex1212.",
        "arizlunari",
        "madonuko (Locale: `ja`)\nteddyji (Locale: `zh-CN`)\nxzihnago (Locale: `zh-TW`)",
    ]);
    assert_eq!(e.footer.as_ref().unwrap().text, "Thanks");
}

#[test]
fn latency_responses() {
    let r = Latency.initial_response(s("Pinging..."));
    let data = r.data.unwrap();
    assert_eq!(data.content.as_deref(), Some("Pinging..."));
    assert!(data.embeds.is_empty());
    assert_eq!(Latency.edited_content(s("42 ms")).as_deref(), Some("42 ms"));
}

#[test]
fn serverinfo_embed() {
    let guild = GuildInfo { id: 123456789, name: s("Guild"), icon_url: s("https://cdn.discordapp.com/icons/1/a.png") };
    let e = ServerInfo.execute(guild, s("ID")).ok().unwrap();
    assert_eq!(e.author.as_ref().unwrap().name, "Guild");
    assert_eq!(e.fields[0].name, "ID");
    assert_eq!(e.fields[0].value, "123456789");
    let bad = GuildInfo { id: 1, name: s("Guild"), icon_url: s("cdn/icon.png") };
    assert!(matches!(ServerInfo.execute(bad, s("ID")), Err(CommandError::ImageSource(e)) if e.url == "cdn/icon.png"));
}

#[test]
fn bot_info_embed_fields() {
    let texts = BotInfoTexts { botstarted_field_name: s("Started"), latency_field_name: s("Latency"), title: s("Bot") };
    let e = info_bot::execute(texts, 1700000000, 37).ok().unwrap();
    assert_eq!(e.fields[0].value, "<t:1700000000:R>");
    assert_eq!(e.fields[1].value, "`37`");
    assert_eq!(e.title.as_deref(), Some("Bot"));
    assert_eq!(uptime_uri("localhost:8000"), "http://localhost:8000/api/v0110/stats/uptime");
}

#[test]
fn user_info_outside_a_server() {
    let e = user_info_embed(&labels(), user(None, None), None, &Vec::new(), s("https://cdn/avatar.png")).ok().unwrap();
    assert_eq!(e.fields.len(), 1);
    assert_eq!(e.fields[0].name, "General");
    assert_eq!(
        e.fields[0].value,
        "ID: `105484726235607040`\nName: <not set>\nCreated: <t:1445219918:R>"
    );
    assert!(e.title.is_none());
    assert_eq!(e.thumbnail.as_deref(), Some("https://cdn/avatar.png"));
}

#[test]
fn user_info_in_a_server() {
    let member = MemberInfo { nick: Some(s("nick")), joined_at: Some(1600000000), roles: vec![5, 6], flags: Vec::new() };
    let e = user_info_embed(&labels(), user(Some("Global"), None), Some(member), &vec![6, 5], s("https://x")).ok().unwrap();
    assert_eq!(e.fields.len(), 2);
    assert_eq!(e.fields[0].value, "ID: `105484726235607040`\nName: Global\nCreated: <t:1445219918:R>");
    assert_eq!(e.fields[1].name, "Presence");
    assert_eq!(e.fields[1].value, "Nick: nick\nJoined: <t:1600000000:R>\nRoles: <@&6>, <@&5>\nFlags: None");
    assert_eq!(e.title.as_deref(), Some("someone"));
}

#[test]
fn user_info_member_details() {
    let member = MemberInfo { nick: None, joined_at: None, roles: Vec::new(), flags: vec![s("DID_REJOIN"), s("BYPASSES_VERIFICATION")] };
    let e = user_info_embed(&labels(), user(None, None), Some(member), &Vec::new(), s("https://x")).ok().unwrap();
    assert_eq!(e.fields[1].value, "Nick: <not set>\nJoined: unknown\nRoles: \nFlags: DID_REJOIN, BYPASSES_VERIFICATION");
}

#[test]
fn user_info_refuses_bad_thumbnail() {
    let r = user_info_embed(&labels(), user(None, None), None, &Vec::new(), s("avatar.png"));
    assert!(matches!(r, Err(CommandError::ImageSource(e)) if e.url == "avatar.png"));
}

#[test]
fn execute_shows_at_most_ten_roles() {
    let roles: Vec<u64> = (1..=15).collect();
    let member = MemberInfo { nick: None, joined_at: None, roles, flags: Vec::new() };
    let e = execute(&labels(), user(None, None), Some(member), |_: &AvatarSource| s("https://x")).ok().unwrap();
    let presence = &e.fields[1].value;
    let roles_line = presence.lines().nth(2).unwrap();
    let mentions: Vec<&str> = roles_line.trim_start_matches("Roles: ").split(", ").collect();
    assert_eq!(mentions.len(), 10);
    let mut ids: Vec<u64> = mentions.iter().map(|m| m.trim_start_matches("<@&").trim_end_matches('>').parse().unwrap()).collect();
    ids.sort();
    ids.dedup();
    assert_eq!(ids.len(), 10);
    assert!(ids.iter().all(|id| (1..=15).contains(id)));
}

#[test]
fn execute_with_few_roles_shows_all() {
    let member = MemberInfo { nick: None, joined_at: None, roles: vec![7], flags: Vec::new() };
    let e = execute(&labels(), user(None, None), Some(member), |_: &AvatarSource| s("https://x")).ok().unwrap();
    assert!(e.fields[1].value.contains("Roles: <@&7>\n"));
    let e = execute(&labels(), user(None, None), None, |_: &AvatarSource| s("https://x")).ok().unwrap();
    assert_eq!(e.fields.len(), 1);
}

#[test]
fn avatar_choice() {
    assert!(matches!(avatar_source(&user(None, Some("abc"))), AvatarSource::UserAvatar { user_id: 105484726235607040, hash } if hash == "abc"));
    assert!(matches!(avatar_source(&user(Some("g"), None)), AvatarSource::DefaultForUser { user_id: 105484726235607040 }));
    assert!(matches!(avatar_source(&user(None, None)), AvatarSource::DefaultForDiscriminator { discriminator: 1234 }));
}

#[test]
fn embed_response_carries_embeds() {
    let e = About.execute(s("a"), s("b"), s("c"), s("d")).ok().unwrap();
    let r = embed_response(vec![e]);
    let data = r.data.unwrap();
    assert!(data.content.is_none());
    assert_eq!(data.embeds.len(), 1);
}

#[test]
fn execute_thumbnail_follows_the_avatar() {
    let url = |source: &AvatarSource| match source {
        AvatarSource::UserAvatar { user_id, hash } => format!("https://cdn/avatars/{user_id}/{hash}.png"),
        AvatarSource::DefaultForUser { user_id } => format!("https://cdn/default/user/{user_id}.png"),
        AvatarSource::DefaultForDiscriminator { discriminator } => format!("https://cdn/default/{discriminator}.png"),
    };
    let e = execute(&labels(), user(None, Some("abc")), None, url).ok().unwrap();
    assert_eq!(e.thumbnail.as_deref(), Some("https://cdn/avatars/105484726235607040/abc.png"));
    let e = execute(&labels(), user(Some("g"), None), None, url).ok().unwrap();
    assert_eq!(e.thumbnail.as_deref(), Some("https://cdn/default/user/105484726235607040.png"));
    let e = execute(&labels(), user(None, None), None, url).ok().unwrap();
    assert_eq!(e.thumbnail.as_deref(), Some("https://cdn/default/1234.png"));
    let bad = execute(&labels(), user(None, None), None, |_: &AvatarSource| s("cdn/x.png"));
    assert!(matches!(bad, Err(CommandError::ImageSource(e)) if e.url == "cdn/x.png"));
}
