//! Display helpers of the command manager: names of Discord enum values and
//! the coloured text that describes command option choices.

use vstd::prelude::*;
use std::collections::HashMap;
use crate::colors::{bright_cyan, bold, truecolor, bright_cyan_text, bold_text, truecolor_text};
use crate::text::{signed_decimal, signed_decimal_string, repeated, repeat_string};

verus! {

/// Display extensions.
pub trait DisplayExt {
    /// Display as a string.
    fn display(&self) -> String;
}

/// The value of a command option: an integer, or a number held by its
/// display text.
pub enum CommandOptionValue {
    Integer(i64),
    Number(String),
}

/// The text of a command option value.
pub open spec fn option_value_text(v: CommandOptionValue) -> Seq<char> {
    match v {
        CommandOptionValue::Integer(i) => signed_decimal(i as int),
        CommandOptionValue::Number(n) => n@,
    }
}

impl DisplayExt for CommandOptionValue {
    fn display(&self) -> (r: String)
        ensures
            r@ == option_value_text(*self),
    {
        match self {
            CommandOptionValue::Integer(integer) => signed_decimal_string(*integer),
            CommandOptionValue::Number(number) => number.clone(),
        }
    }
}

/// Enum type extensions.
pub trait TypeEnumExt {
    /// The name of the enum variant.
    fn name(&self) -> &'static str;
}

/// The type of a Discord channel.
pub enum ChannelType {
    GuildText,
    Private,
    GuildVoice,
    Group,
    GuildCategory,
    GuildAnnouncement,
    AnnouncementThread,
    PublicThread,
    PrivateThread,
    GuildStageVoice,
    GuildDirectory,
    GuildForum,
    GuildMedia,
    Unknown(u8),
}

/// The type of a Discord application command.
pub enum CommandType {
    ChatInput,
    User,
    Message,
    Unknown(u8),
}

/// The type of a Discord application command option.
pub enum CommandOptionType {
    SubCommand,
    SubCommandGroup,
    String,
    Integer,
    Boolean,
    User,
    Channel,
    Role,
    Mentionable,
    Number,
    Attachment,
    Unknown(u8),
}

/// The name the command manager prints for a channel type.
pub open spec fn channel_type_name(t: ChannelType) -> &'static str {
    match t {
        ChannelType::AnnouncementThread => "ANNOUNCEMENT_THREAD",
        ChannelType::Group => "GROUP",
        ChannelType::GuildAnnouncement => "GUILD_ANNOUNCEMENT",
        ChannelType::GuildCategory => "GUILD_CATEGORY",
        ChannelType::GuildDirectory => "GUILD_DIRECTORY",
        ChannelType::GuildForum => "GUILD_FORUM",
        ChannelType::GuildStageVoice => "GUILD_STAGE_VOICE",
        ChannelType::GuildText => "GUILD_TEXT",
        ChannelType::GuildVoice => "GUILD_VOICE",
        ChannelType::PublicThread => "PUBLIC_THREAD",
        ChannelType::Private => "DM",
        ChannelType::PrivateThread => "PRIVATE_THREAD",
        _ => "UNKNOWN",
    }
}

/// The name the command manager prints for a command type.
pub open spec fn command_type_name(t: CommandType) -> &'static str {
    match t {
        CommandType::ChatInput => "CHAT_INPUT",
        CommandType::Message => "MESSAGE",
        CommandType::User => "USER",
        _ => "UNKNOWN",
    }
}

/// The name the command manager prints for a command option type.
pub open spec fn command_option_type_name(t: CommandOptionType) -> &'static str {
    match t {
        CommandOptionType::Attachment => "ATTACHMENT",
        CommandOptionType::Boolean => "BOOLEAN",
        CommandOptionType::Channel => "CHANNEL",
        CommandOptionType::Integer => "INTEGER",
        CommandOptionType::Mentionable => "MENTIONABLE",
        CommandOptionType::Number => "NUMBER",
        CommandOptionType::Role => "ROLE",
        CommandOptionType::String => "STRING",
        CommandOptionType::SubCommand => "SUB_COMMAND",
        CommandOptionType::SubCommandGroup => "SUB_COMMAND_GROUP",
        CommandOptionType::User => "USER",
        _ => "UNKNOWN",
    }
}

impl TypeEnumExt for ChannelType {
    fn name(&self) -> (r: &'static str)
        ensures
            r == channel_type_name(*self),
    {
        match self {
            ChannelType::AnnouncementThread => "ANNOUNCEMENT_THREAD",
            ChannelType::Group => "GROUP",
            ChannelType::GuildAnnouncement => "GUILD_ANNOUNCEMENT",
            ChannelType::GuildCategory => "GUILD_CATEGORY",
            ChannelType::GuildDirectory => "GUILD_DIRECTORY",
            ChannelType::GuildForum => "GUILD_FORUM",
            ChannelType::GuildStageVoice => "GUILD_STAGE_VOICE",
            ChannelType::GuildText => "GUILD_TEXT",
            ChannelType::GuildVoice => "GUILD_VOICE",
            ChannelType::PublicThread => "PUBLIC_THREAD",
            ChannelType::Private => "DM",
            ChannelType::PrivateThread => "PRIVATE_THREAD",
            _ => "UNKNOWN",
        }
    }
}

impl TypeEnumExt for CommandType {
    fn name(&self) -> (r: &'static str)
        ensures
            r == command_type_name(*self),
    {
        match self {
            CommandType::ChatInput => "CHAT_INPUT",
            CommandType::Message => "MESSAGE",
            CommandType::User => "USER",
            _ => "UNKNOWN",
        }
    }
}

impl TypeEnumExt for CommandOptionType {
    fn name(&self) -> (r: &'static str)
        ensures
            r == command_option_type_name(*self),
    {
        match self {
            CommandOptionType::Attachment => "ATTACHMENT",
            CommandOptionType::Boolean => "BOOLEAN",
            CommandOptionType::Channel => "CHANNEL",
            CommandOptionType::Integer => "INTEGER",
            CommandOptionType::Mentionable => "MENTIONABLE",
            CommandOptionType::Number => "NUMBER",
            CommandOptionType::Role => "ROLE",
            CommandOptionType::String => "STRING",
            CommandOptionType::SubCommand => "SUB_COMMAND",
            CommandOptionType::SubCommandGroup => "SUB_COMMAND_GROUP",
            CommandOptionType::User => "USER",
            _ => "UNKNOWN",
        }
    }
}

/// Every known channel, command and command option type is printed under
/// its own Discord name, and only unknown types print `UNKNOWN`.
pub proof fn lemma_type_names(n: u8)
    ensures
        channel_type_name(ChannelType::GuildText)@ == "GUILD_TEXT"@,
        channel_type_name(ChannelType::Private)@ == "DM"@,
        channel_type_name(ChannelType::GuildVoice)@ == "GUILD_VOICE"@,
        channel_type_name(ChannelType::Group)@ == "GROUP"@,
        channel_type_name(ChannelType::GuildCategory)@ == "GUILD_CATEGORY"@,
        channel_type_name(ChannelType::GuildAnnouncement)@ == "GUILD_ANNOUNCEMENT"@,
        channel_type_name(ChannelType::AnnouncementThread)@ == "ANNOUNCEMENT_THREAD"@,
        channel_type_name(ChannelType::PublicThread)@ == "PUBLIC_THREAD"@,
        channel_type_name(ChannelType::PrivateThread)@ == "PRIVATE_THREAD"@,
        channel_type_name(ChannelType::GuildStageVoice)@ == "GUILD_STAGE_VOICE"@,
        channel_type_name(ChannelType::GuildDirectory)@ == "GUILD_DIRECTORY"@,
        channel_type_name(ChannelType::GuildForum)@ == "GUILD_FORUM"@,
        channel_type_name(ChannelType::GuildMedia)@ == "UNKNOWN"@,
        channel_type_name(ChannelType::Unknown(n))@ == "UNKNOWN"@,
        command_type_name(CommandType::ChatInput)@ == "CHAT_INPUT"@,
        command_type_name(CommandType::User)@ == "USER"@,
        command_type_name(CommandType::Message)@ == "MESSAGE"@,
        command_type_name(CommandType::Unknown(n))@ == "UNKNOWN"@,
        command_option_type_name(CommandOptionType::SubCommand)@ == "SUB_COMMAND"@,
        command_option_type_name(CommandOptionType::SubCommandGroup)@ == "SUB_COMMAND_GROUP"@,
        command_option_type_name(CommandOptionType::String)@ == "STRING"@,
        command_option_type_name(CommandOptionType::Integer)@ == "INTEGER"@,
        command_option_type_name(CommandOptionType::Boolean)@ == "BOOLEAN"@,
        command_option_type_name(CommandOptionType::User)@ == "USER"@,
        command_option_type_name(CommandOptionType::Channel)@ == "CHANNEL"@,
        command_option_type_name(CommandOptionType::Role)@ == "ROLE"@,
        command_option_type_name(CommandOptionType::Mentionable)@ == "MENTIONABLE"@,
        command_option_type_name(CommandOptionType::Number)@ == "NUMBER"@,
        command_option_type_name(CommandOptionType::Attachment)@ == "ATTACHMENT"@,
        command_option_type_name(CommandOptionType::Unknown(n))@ == "UNKNOWN"@,
{
}

/// The length and first letter of each known command option type's name.
spec fn option_name_key(t: CommandOptionType) -> (int, char) {
    match t {
        CommandOptionType::SubCommand => (11, 'S'),
        CommandOptionType::SubCommandGroup => (17, 'S'),
        CommandOptionType::String => (6, 'S'),
        CommandOptionType::Integer => (7, 'I'),
        CommandOptionType::Boolean => (7, 'B'),
        CommandOptionType::User => (4, 'U'),
        CommandOptionType::Channel => (7, 'C'),
        CommandOptionType::Role => (4, 'R'),
        CommandOptionType::Mentionable => (11, 'M'),
        CommandOptionType::Number => (6, 'N'),
        CommandOptionType::Attachment => (10, 'A'),
        CommandOptionType::Unknown(_) => (7, 'U'),
    }
}

proof fn lemma_option_name_key(t: CommandOptionType)
    ensures
        command_option_type_name(t)@.len() == option_name_key(t).0,
        command_option_type_name(t)@[0] == option_name_key(t).1,
{
    match t {
        CommandOptionType::SubCommand => { reveal_strlit("SUB_COMMAND"); }
        CommandOptionType::SubCommandGroup => { reveal_strlit("SUB_COMMAND_GROUP"); }
        CommandOptionType::String => { reveal_strlit("STRING"); }
        CommandOptionType::Integer => { reveal_strlit("INTEGER"); }
        CommandOptionType::Boolean => { reveal_strlit("BOOLEAN"); }
        CommandOptionType::User => { reveal_strlit("USER"); }
        CommandOptionType::Channel => { reveal_strlit("CHANNEL"); }
        CommandOptionType::Role => { reveal_strlit("ROLE"); }
        CommandOptionType::Mentionable => { reveal_strlit("MENTIONABLE"); }
        CommandOptionType::Number => { reveal_strlit("NUMBER"); }
        CommandOptionType::Attachment => { reveal_strlit("ATTACHMENT"); }
        CommandOptionType::Unknown(_) => { reveal_strlit("UNKNOWN"); }
    }
}

/// Distinct known command option types have distinct names.
pub proof fn lemma_option_type_names_distinct(a: CommandOptionType, b: CommandOptionType)
    requires
        !(a is Unknown),
        !(b is Unknown),
        a != b,
    ensures
        command_option_type_name(a)@ != command_option_type_name(b)@,
{
    lemma_option_name_key(a);
    lemma_option_name_key(b);
    assert(option_name_key(a) != option_name_key(b));
}

/// The indentation of the given depth: four spaces per level.
pub open spec fn indent(depth: nat) -> Seq<char> {
    repeated(seq![' ', ' ', ' ', ' '], depth)
}

fn indentation(depth: usize) -> (r: String)
    ensures
        r@ == indent(depth as nat),
{
    proof {
        reveal_strlit("    ");
        assert("    "@ =~= seq![' ', ' ', ' ', ' ']);
    }
    repeat_string("    ", depth)
}

/// The character views of a sequence of pairs of strings.
pub open spec fn pair_views(e: Seq<(String, String)>) -> Seq<(Seq<char>, Seq<char>)> {
    e.map_values(|p: (String, String)| (p.0@, p.1@))
}

/// `e` lists every entry of `m` exactly once, in some order.
pub open spec fn lists(e: Seq<(String, String)>, m: Map<String, String>) -> bool {
    &&& forall|i: int| 0 <= i < e.len() ==> m.contains_key(#[trigger] e[i].0) && m[e[i].0] == e[i].1
    &&& forall|k: String| m.contains_key(k) ==> exists|i: int| 0 <= i < e.len() && #[trigger] e[i].0 == k
    &&& forall|i: int, j: int| 0 <= i < e.len() && 0 <= j < e.len() && i != j ==> e[i].0 != e[j].0
}

/// The entries of a map of localizations, in the order in which the map
/// yields them (`HashMap::iter`). That order depends on the map's hasher and
/// is not stated; the contract states only that every entry comes once.
/// vstd's specification of `HashMap::iter` holds only for keys that obey its
/// key model, which it grants to integers and booleans but not to `String`,
/// so the iteration stands here.
#[verifier::external_body]
fn localization_entries(m: &HashMap<String, String>) -> (r: Vec<(String, String)>)
    ensures
        lists(r@, m@),
{
    m.iter().map(|(k, v)| (k.clone(), v.clone())).collect()
}

/// The line printed for one localization.
pub open spec fn localization_line(depth: nat, locale: Seq<char>, text: Seq<char>) -> Seq<char> {
    indent(depth) + seq!['-', ' '] + bright_cyan_text(locale) + " Localization: "@ + bright_cyan_text(text) + seq!['\n']
}

/// The lines printed for a sequence of localizations.
pub open spec fn localization_lines(e: Seq<(Seq<char>, Seq<char>)>, depth: nat) -> Seq<char>
    decreases e.len(),
{
    if e.len() == 0 {
        Seq::empty()
    } else {
        localization_lines(e.subrange(0, e.len() - 1), depth) + localization_line(depth, e.last().0, e.last().1)
    }
}

/// What `print_localizations` prints for the localizations `e`: a line
/// break, then one line per localization.
pub open spec fn localizations_text(e: Seq<(Seq<char>, Seq<char>)>, depth: nat) -> Seq<char> {
    seq!['\n'] + localization_lines(e, depth)
}

/// The text that prints a localizations dictionary: a line break, then one
/// line per locale with its localization, in the order of the map.
pub fn print_localizations(localizations: &HashMap<String, String>, depth: usize) -> (r: String)
    ensures
        exists|e: Seq<(String, String)>| #[trigger] lists(e, localizations@) && r@ == localizations_text(pair_views(e), depth as nat),
{
    let entries = localization_entries(localizations);
    let ghost e = pair_views(entries@);
    let mut out = String::new();
    proof {
        reveal_strlit("\n");
        reveal_strlit("- ");
    }
    out.append("\n");
    let mut i: usize = 0;
    while i < entries.len()
        invariant
            i <= entries@.len(),
            e == pair_views(entries@),
            out@ == localizations_text(e.subrange(0, i as int), depth as nat),
        decreases entries.len() - i,
    {
        let ind = indentation(depth);
        let locale = bright_cyan(entries[i].0.as_str());
        let text = bright_cyan(entries[i].1.as_str());
        out.append(ind.as_str());
        out.append("- ");
        out.append(locale.as_str());
        out.append(" Localization: ");
        out.append(text.as_str());
        out.append("\n");
        proof {
            reveal_strlit("\n");
            reveal_strlit("- ");
            let q = e.subrange(0, i + 1);
            assert(q.subrange(0, i as int) =~= e.subrange(0, i as int));
            assert(q.last() == e[i as int]);
            assert(out@ =~= localizations_text(e.subrange(0, i + 1), depth as nat));
        }
        i += 1;
    }
    assert(e.subrange(0, entries@.len() as int) =~= e);
    out
}

/// The value of a command option choice, as the command manager displays
/// it; a number is held by its display text.
pub enum CommandManagerCommandOptionChoiceValue {
    String(String),
    Integer(i64),
    Number(String),
}

/// The text of a choice value as displayed.
pub open spec fn choice_value_text(v: CommandManagerCommandOptionChoiceValue) -> Seq<char> {
    match v {
        CommandManagerCommandOptionChoiceValue::String(s) => s@,
        CommandManagerCommandOptionChoiceValue::Integer(i) => signed_decimal(i as int),
        CommandManagerCommandOptionChoiceValue::Number(n) => n@,
    }
}

/// What `display` prints for a choice value at the given depth.
pub open spec fn choice_value_display(v: CommandManagerCommandOptionChoiceValue, depth: nat) -> Seq<char> {
    indent(depth) + seq![' ', ' '] + bold_text("Command Option Choice Value: "@) + bright_cyan_text(choice_value_text(v)) + seq!['\n']
}

impl CommandManagerCommandOptionChoiceValue {
    /// Display command option choice value.
    pub fn display(&self, depth: usize) -> (r: String)
        ensures
            r@ == choice_value_display(*self, depth as nat),
    {
        let mut out = indentation(depth);
        out.append("  ");
        let label = bold("Command Option Choice Value: ");
        out.append(label.as_str());
        let value = match self {
            CommandManagerCommandOptionChoiceValue::String(string) => bright_cyan(string.as_str()),
            CommandManagerCommandOptionChoiceValue::Integer(integer) => {
                let text = signed_decimal_string(*integer);
                bright_cyan(text.as_str())
            }
            CommandManagerCommandOptionChoiceValue::Number(number) => bright_cyan(number.as_str()),
        };
        out.append(value.as_str());
        out.append("\n");
        proof {
            reveal_strlit("  ");
            reveal_strlit("\n");
            assert(out@ =~= choice_value_display(*self, depth as nat));
        }
        out
    }
}

/// A command option choice.
pub struct CommandManagerCommandOptionChoice {
    pub name: String,
    pub name_localizations: Option<HashMap<String, String>>,
    pub value: CommandManagerCommandOptionChoiceValue,
}

/// What `display` prints for a choice before the localizations and the value.
pub open spec fn choice_head(name: Seq<char>, depth: nat) -> Seq<char> {
    indent(depth) + seq!['-', ' '] + bold_text("Command Option Choice Name: "@) + bright_cyan_text(name) + seq!['\n']
        + indent(depth) + seq![' ', ' '] + bold_text("Command Option Choice Name Localizations: "@)
}

/// What is printed in place of absent localizations.
pub open spec fn no_localizations_text() -> Seq<char> {
    truecolor_text("None"@, 107, 107, 107) + seq!['\n']
}

impl CommandManagerCommandOptionChoice {
    /// Display command option choice.
    pub fn display(&self, depth: usize) -> (r: String)
        requires
            depth < usize::MAX,
        ensures
            match self.name_localizations {
                Some(m) => exists|e: Seq<(String, String)>| #[trigger] lists(e, m@) && r@ == choice_head(self.name@, depth as nat)
                    + localizations_text(pair_views(e), depth as nat + 1) + choice_value_display(self.value, depth as nat),
                None => r@ == choice_head(self.name@, depth as nat) + no_localizations_text()
                    + choice_value_display(self.value, depth as nat),
            },
    {
        let mut out = indentation(depth);
        out.append("- ");
        let label = bold("Command Option Choice Name: ");
        out.append(label.as_str());
        let name = bright_cyan(self.name.as_str());
        out.append(name.as_str());
        out.append("\n");
        let ind = indentation(depth);
        out.append(ind.as_str());
        out.append("  ");
        let label = bold("Command Option Choice Name Localizations: ");
        out.append(label.as_str());
        proof {
            reveal_strlit("- ");
            reveal_strlit("  ");
            reveal_strlit("\n");
            assert(out@ =~= choice_head(self.name@, depth as nat));
        }
        let ghost head = out@;
        let ghost mut listing: Seq<(String, String)> = Seq::empty();
        match &self.name_localizations {
            Some(localizations) => {
                let text = print_localizations(localizations, depth + 1);
                out.append(text.as_str());
                proof {
                    listing = choose|e: Seq<(String, String)>| #[trigger] lists(e, localizations@)
                        && text@ == localizations_text(pair_views(e), depth as nat + 1);
                }
            }
            None => {
                let none = truecolor("None", 107, 107, 107);
                out.append(none.as_str());
                out.append("\n");
                proof {
                    reveal_strlit("\n");
                    assert(out@ =~= head + no_localizations_text());
                }
            }
        }
        let value = self.value.display(depth);
        out.append(value.as_str());
        proof {
            if self.name_localizations is Some {
                assert(lists(listing, self.name_localizations->0@));
            }
        }
        out
    }
}

} // verus!
