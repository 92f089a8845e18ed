//! The `info user` subcommand: general information about a user and, in a
//! server, the user's presence there.

use vstd::prelude::*;
use rand::seq::IndexedRandom;
use twilight_mention::Mention;
use twilight_model::id::Id;
use twilight_model::id::marker::{RoleMarker, UserMarker};
use twilight_util::snowflake::Snowflake;
use crate::commands::{CommandError, EMBED_COLOR, built, finish};
use crate::embed::{Embed, EmbedField, EmbedView, accepted_url, empty_embed, image_url, plain_field};
use crate::markdown::{MarkdownStyle, inline_code_text, relative_timestamp_text};
use crate::names::views;
use crate::text::{decimal, decimal_string, joined, join_strings, signed_decimal, signed_decimal_string};

verus! {

/// The number of roles that the presence field lists at most.
pub const SHOWN_ROLES: usize = 10;

/// The localized texts of the `info user` embed.
pub struct UserInfoLabels {
    pub generalinfo_field_name: String,
    pub generalinfo_id_subfield_name: String,
    pub generalinfo_name_subfield_name: String,
    pub generalinfo_created_subfield_name: String,
    pub serverpresence_field_name: String,
    pub serverpresence_nickname_subfield_name: String,
    pub serverpresence_joined_subfield_name: String,
    pub serverpresence_roles_subfield_name: String,
    pub serverpresence_flags_subfield_name: String,
}

/// The user that the command describes.
pub struct UserInfo {
    pub id: u64,
    pub name: String,
    pub global_name: Option<String>,
    pub avatar: Option<String>,
    pub discriminator: u16,
}

/// The user as a member of the server that the command runs in.
pub struct MemberInfo {
    pub nick: Option<String>,
    /// When the member joined, in seconds since the Unix epoch.
    pub joined_at: Option<i64>,
    pub roles: Vec<u64>,
    /// The names of the member's flags.
    pub flags: Vec<String>,
}

/// Where the thumbnail of the embed comes from.
pub enum AvatarSource {
    /// The user's own avatar.
    UserAvatar { user_id: u64, hash: String },
    /// The default avatar for the user's identifier.
    DefaultForUser { user_id: u64 },
    /// The default avatar for the user's discriminator.
    DefaultForDiscriminator { discriminator: u16 },
}

/// The avatar shown: the user's own if set; else, for a user with a global
/// name, the default avatar by identifier; else the default avatar by
/// discriminator.
pub open spec fn avatar_of(user: UserInfo) -> AvatarSource {
    match user.avatar {
        Some(hash) => AvatarSource::UserAvatar { user_id: user.id, hash },
        None => if user.global_name is Some {
            AvatarSource::DefaultForUser { user_id: user.id }
        } else {
            AvatarSource::DefaultForDiscriminator { discriminator: user.discriminator }
        },
    }
}

/// The avatar shown for a user (`avatar_of`).
pub fn avatar_source(user: &UserInfo) -> (r: AvatarSource)
    ensures
        r == avatar_of(*user),
{
    match &user.avatar {
        Some(hash) => AvatarSource::UserAvatar { user_id: user.id, hash: hash.clone() },
        None => if user.global_name.is_some() {
            AvatarSource::DefaultForUser { user_id: user.id }
        } else {
            AvatarSource::DefaultForDiscriminator { discriminator: user.discriminator }
        },
    }
}

/// The Unix time in milliseconds at which the snowflake `id` was made.
pub open spec fn snowflake_millis(id: u64) -> int {
    id as int / 4194304 + 1420070400000
}

/// `Snowflake::timestamp` of a user identifier: Discord's epoch
/// (1420070400000 ms) plus the bits of the identifier above the 22 lowest.
/// The identifier is not zero, as `Id::new` demands.
#[verifier::external_body]
fn user_created_millis(user_id: u64) -> (r: i64)
    requires
        user_id != 0,
    ensures
        r == snowflake_millis(user_id),
{
    Id::<UserMarker>::new(user_id).timestamp()
}

/// The text of a role mention: `<@&` and the role's identifier, then `>`.
pub open spec fn role_mention_text(role_id: u64) -> Seq<char> {
    "<@&"@ + decimal(role_id as nat) + ">"@
}

/// `Mention::mention` of a role identifier, displayed; the identifier is not
/// zero, as `Id::new` demands.
#[verifier::external_body]
fn role_mention(role_id: u64) -> (r: String)
    requires
        role_id != 0,
    ensures
        r@ == role_mention_text(role_id),
{
    Id::<RoleMarker>::new(role_id).mention().to_string()
}

/// `chosen` could come from picking `SHOWN_ROLES` of the roles at random:
/// as many as there are, up to that number, each taken from a distinct
/// position of `roles`.
pub open spec fn picked_from(chosen: Seq<u64>, roles: Seq<u64>, amount: nat) -> bool {
    &&& chosen.len() == if amount <= roles.len() { amount } else { roles.len() }
    &&& chosen.to_multiset().subset_of(roles.to_multiset())
}

/// `IndexedRandom::choose_multiple` with the thread's random generator:
/// `amount` of the roles (all of them if there are fewer), from distinct
/// positions, in random order. Which ones, and in what order, is left open.
#[verifier::external_body]
fn choose_roles(roles: &Vec<u64>, amount: usize) -> (r: Vec<u64>)
    ensures
        picked_from(r@, roles@, amount as nat),
{
    #[allow(deprecated)]
    let mut rng = rand::thread_rng();
    roles.choose_multiple(&mut rng, amount).copied().collect()
}

/// `label value`.
pub open spec fn labeled(label: Seq<char>, value: Seq<char>) -> Seq<char> {
    label + seq![' '] + value
}

/// The text of an optional name, `<not set>` when absent.
pub open spec fn or_not_set(s: Option<String>) -> Seq<char> {
    match s {
        Some(t) => t@,
        None => "<not set>"@,
    }
}

/// The general information: the identifier, the global name and when the
/// account was made, one per line.
pub open spec fn general_info_text(l: UserInfoLabels, user: UserInfo) -> Seq<char> {
    labeled(l.generalinfo_id_subfield_name@, inline_code_text(decimal(user.id as nat))) + seq!['\n']
        + labeled(l.generalinfo_name_subfield_name@, or_not_set(user.global_name)) + seq!['\n']
        + labeled(l.generalinfo_created_subfield_name@,
            relative_timestamp_text(decimal((snowflake_millis(user.id) / 1000) as nat)))
}

/// When the member joined: a relative timestamp, or `unknown`.
pub open spec fn joined_text(joined_at: Option<i64>) -> Seq<char> {
    match joined_at {
        Some(t) => relative_timestamp_text(signed_decimal(t as int)),
        None => "unknown"@,
    }
}

/// The mentions of the roles.
pub open spec fn mentions(roles: Seq<u64>) -> Seq<Seq<char>> {
    roles.map_values(|r: u64| role_mention_text(r))
}

/// The member's flags separated by `, `, or `None` when there are none.
pub open spec fn flags_text(flags: Seq<String>) -> Seq<char> {
    if flags.len() == 0 {
        "None"@
    } else {
        joined(views(flags), ", "@)
    }
}

/// The server presence: the nickname, when the member joined, the shown
/// roles and the flags, one per line.
pub open spec fn presence_text(l: UserInfoLabels, m: MemberInfo, chosen: Seq<u64>) -> Seq<char> {
    labeled(l.serverpresence_nickname_subfield_name@, or_not_set(m.nick)) + seq!['\n']
        + labeled(l.serverpresence_joined_subfield_name@, joined_text(m.joined_at)) + seq!['\n']
        + labeled(l.serverpresence_roles_subfield_name@, joined(mentions(chosen), ", "@)) + seq!['\n']
        + labeled(l.serverpresence_flags_subfield_name@, flags_text(m.flags@))
}

/// The embed of the `info user` subcommand: the general information; in a
/// server also the presence there, with the user's name as title; and the
/// avatar as thumbnail.
pub open spec fn user_info_view(l: UserInfoLabels, user: UserInfo, member: Option<MemberInfo>, chosen: Seq<u64>, thumbnail: Seq<char>) -> EmbedView {
    let general = plain_field(l.generalinfo_field_name@, general_info_text(l, user));
    match member {
        Some(m) => EmbedView {
            color: Some(EMBED_COLOR),
            fields: seq![general, plain_field(l.serverpresence_field_name@, presence_text(l, m, chosen))],
            title: Some(user.name@),
            thumbnail: Some(thumbnail),
            ..empty_embed()
        },
        None => EmbedView {
            color: Some(EMBED_COLOR),
            fields: seq![general],
            thumbnail: Some(thumbnail),
            ..empty_embed()
        },
    }
}

fn push_labeled(out: &mut String, label: &str, value: &str)
    ensures
        final(out)@ == old(out)@ + labeled(label@, value@),
{
    out.append(label);
    out.append(" ");
    out.append(value);
    proof {
        reveal_strlit(" ");
        assert(final(out)@ =~= old(out)@ + labeled(label@, value@));
    }
}

fn name_or_not_set(s: &Option<String>) -> (r: String)
    ensures
        r@ == or_not_set(*s),
{
    match s {
        Some(t) => t.clone(),
        None => String::from_str("<not set>"),
    }
}

fn general_info(labels: &UserInfoLabels, user: &UserInfo) -> (r: String)
    requires
        user.id != 0,
    ensures
        r@ == general_info_text(*labels, *user),
{
    let id = decimal_string(user.id).discord_inline_code();
    let name = name_or_not_set(&user.global_name);
    let millis = user_created_millis(user.id);
    let created = decimal_string((millis as u64) / 1000).discord_relative_timestamp();
    let mut out = String::new();
    push_labeled(&mut out, labels.generalinfo_id_subfield_name.as_str(), id.as_str());
    out.append("\n");
    push_labeled(&mut out, labels.generalinfo_name_subfield_name.as_str(), name.as_str());
    out.append("\n");
    push_labeled(&mut out, labels.generalinfo_created_subfield_name.as_str(), created.as_str());
    proof {
        reveal_strlit("\n");
        assert(out@ =~= general_info_text(*labels, *user));
    }
    out
}

fn role_mentions(roles: &Vec<u64>) -> (r: Vec<String>)
    requires
        forall|i: int| 0 <= i < roles@.len() ==> roles@[i] != 0,
    ensures
        views(r@) == mentions(roles@),
{
    let mut out: Vec<String> = Vec::new();
    let mut i: usize = 0;
    while i < roles.len()
        invariant
            i <= roles.len(),
            forall|k: int| 0 <= k < roles@.len() ==> roles@[k] != 0,
            views(out@) == mentions(roles@.take(i as int)),
        decreases roles.len() - i,
    {
        let mention = role_mention(roles[i]);
        let ghost before = out@;
        out.push(mention);
        proof {
            assert(views(out@) =~= views(before).push(mention@));
            assert(roles@.take(i + 1) =~= roles@.take(i as int).push(roles@[i as int]));
            assert(mentions(roles@.take(i + 1)) =~= mentions(roles@.take(i as int)).push(role_mention_text(roles@[i as int])));
        }
        i += 1;
    }
    assert(roles@.take(roles.len() as int) =~= roles@);
    out
}

fn flags_display(flags: &Vec<String>) -> (r: String)
    ensures
        r@ == flags_text(flags@),
{
    if flags.len() == 0 {
        String::from_str("None")
    } else {
        join_strings(flags, ", ")
    }
}

fn presence(labels: &UserInfoLabels, member: &MemberInfo, chosen: &Vec<u64>) -> (r: String)
    requires
        forall|i: int| 0 <= i < chosen@.len() ==> chosen@[i] != 0,
    ensures
        r@ == presence_text(*labels, *member, chosen@),
{
    let nick = name_or_not_set(&member.nick);
    let joined = match member.joined_at {
        Some(t) => signed_decimal_string(t).discord_relative_timestamp(),
        None => String::from_str("unknown"),
    };
    let shown = role_mentions(chosen);
    let roles = join_strings(&shown, ", ");
    let flags = flags_display(&member.flags);
    let mut out = String::new();
    push_labeled(&mut out, labels.serverpresence_nickname_subfield_name.as_str(), nick.as_str());
    out.append("\n");
    push_labeled(&mut out, labels.serverpresence_joined_subfield_name.as_str(), joined.as_str());
    out.append("\n");
    push_labeled(&mut out, labels.serverpresence_roles_subfield_name.as_str(), roles.as_str());
    out.append("\n");
    push_labeled(&mut out, labels.serverpresence_flags_subfield_name.as_str(), flags.as_str());
    proof {
        reveal_strlit("\n");
        assert(out@ =~= presence_text(*labels, *member, chosen@));
    }
    out
}

/// The embed of the `info user` subcommand for the roles `chosen` to show.
/// An avatar URL that an embed refuses gives that error; else the embed, if
/// it keeps Discord's limits.
pub fn user_info_embed(labels: &UserInfoLabels, user: UserInfo, member: Option<MemberInfo>, chosen: &Vec<u64>, thumbnail_url: String) -> (r: Result<Embed, CommandError>)
    requires
        user.id != 0,
        forall|i: int| 0 <= i < chosen@.len() ==> chosen@[i] != 0,
    ensures
        !accepted_url(thumbnail_url@) ==> (r matches Err(CommandError::ImageSource(e)) && e.url@ == thumbnail_url@),
        accepted_url(thumbnail_url@) ==> built(r, user_info_view(*labels, user, member, chosen@, thumbnail_url@)),
{
    let ghost u = user;
    let ghost m = member;
    let ghost url = thumbnail_url@;
    let general = general_info(labels, &user);
    let mut embed = Embed::new()
        .color(EMBED_COLOR)
        .field(EmbedField { name: labels.generalinfo_field_name.clone(), value: general, inline: false });
    match member {
        Some(member) => {
            let text = presence(labels, &member, chosen);
            embed = embed
                .field(EmbedField { name: labels.serverpresence_field_name.clone(), value: text, inline: false })
                .title(user.name);
        }
        None => {}
    }
    let thumbnail = match image_url(thumbnail_url) {
        Ok(url) => url,
        Err(error) => return Err(CommandError::ImageSource(error)),
    };
    let embed = embed.thumbnail(thumbnail);
    assert(embed@.fields =~= user_info_view(*labels, u, m, chosen@, url).fields);
    assert(embed@ =~= user_info_view(*labels, u, m, chosen@, url));
    finish(embed)
}

/// The roles of `chosen` could be shown for `member`: in a server, up to
/// `SHOWN_ROLES` of the member's roles, from distinct positions; outside a
/// server, none.
pub open spec fn shown_roles(chosen: Seq<u64>, member: Option<MemberInfo>) -> bool {
    match member {
        Some(m) => picked_from(chosen, m.roles@, SHOWN_ROLES as nat),
        None => chosen.len() == 0,
    }
}

/// Executes the `info user` subcommand: picks at random the roles to show,
/// takes the thumbnail's URL from `avatar_url` for the user's avatar
/// (`avatar_of`), and builds the embed.
pub fn execute<F: Fn(&AvatarSource) -> String>(labels: &UserInfoLabels, user: UserInfo, member: Option<MemberInfo>, avatar_url: F) -> (r: Result<Embed, CommandError>)
    requires
        user.id != 0,
        member is Some ==> forall|i: int| 0 <= i < member->0.roles@.len() ==> member->0.roles@[i] != 0,
        call_requires(avatar_url, (&avatar_of(user),)),
    ensures
        exists|url: String| #[trigger] call_ensures(avatar_url, (&avatar_of(user),), url)
            && (!accepted_url(url@) ==> (r matches Err(CommandError::ImageSource(e)) && e.url@ == url@))
            && (accepted_url(url@) ==> exists|chosen: Seq<u64>| #[trigger] shown_roles(chosen, member)
                && built(r, user_info_view(*labels, user, member, chosen, url@))),
{
    let chosen = match &member {
        Some(m) => choose_roles(&m.roles, SHOWN_ROLES),
        None => Vec::new(),
    };
    proof {
        if member is Some {
            let roles = member->0.roles@;
            assert forall|i: int| 0 <= i < chosen@.len() implies chosen@[i] != 0 by {
                let x = chosen@[i];
                vstd::seq_lib::to_multiset_contains(chosen@, x);
                vstd::seq_lib::to_multiset_contains(roles, x);
                assert(chosen@.contains(x));
                assert(roles.to_multiset().count(x) > 0);
                let j = choose|j: int| 0 <= j < roles.len() && roles[j] == x;
            }
        }
        assert(shown_roles(chosen@, member));
    }
    let source = avatar_source(&user);
    let thumbnail_url = avatar_url(&source);
    user_info_embed(labels, user, member, &chosen, thumbnail_url)
}

} // verus!
