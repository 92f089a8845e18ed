use std::collections::HashMap;

use hartex::commands_manager::{print_localizations, ChannelType, CommandManagerCommandOptionChoice,
    CommandManagerCommandOptionChoiceValue, CommandOptionType, CommandOptionValue, CommandType, DisplayExt, TypeEnumExt};

fn cyan(s: &str) -> String {
    format!("\u{1b}[96m{s}\u{1b}[39m")
}

fn bold(s: &str) -> String {
    format!("\u{1b}[1m{s}\u{1b}[0m")
}

#[test]
fn enum_names() {
    assert_eq!(ChannelType::Private.name(), "DM");
    assert_eq!(ChannelType::GuildText.name(), "GUILD_TEXT");
    assert_eq!(ChannelType::GuildMedia.name(), "UNKNOWN");
    assert_eq!(ChannelType::Unknown(99).name(), "UNKNOWN");
    assert_eq!(CommandType::ChatInput.name(), "CHAT_INPUT");
    assert_eq!(CommandType::Unknown(7).name(), "UNKNOWN");
    assert_eq!(CommandOptionType::SubCommandGroup.name(), "SUB_COMMAND_GROUP");
    assert_eq!(CommandOptionType::Attachment.name(), "ATTACHMENT");
}

#[test]
fn option_value_display() {
    assert_eq!(CommandOptionValue::Integer(-5).display(), "-5");
    assert_eq!(CommandOptionValue::Integer(1234).display(), "1234");
    assert_eq!(CommandOptionValue::Number(1.5f64.to_string()).display(), "1.5");
}

#[test]
fn localizations_one_line_each() {
    let mut localizations = HashMap::new();
    localizations.insert(String::from("ja"), String::from("こんにちは"));
    let text = print_localizations(&localizations, 2);
    assert_eq!(text, format!("\n        - {} Localization: {}\n", cyan("ja"), cyan("こんにちは")));
    assert_eq!(print_localizations(&HashMap::new(), 1), "\n");
}

#[test]
fn localizations_cover_every_entry() {
    let mut localizations = HashMap::new();
    localizations.insert(String::from("de"), String::from("Hallo"));
    localizations.insert(String::from("fr"), String::from("Bonjour"));
    let text = print_localizations(&localizations, 0);
    assert!(text.starts_with('\n'));
    assert_eq!(text.lines().filter(|line| !line.is_empty()).count(), 2);
    assert!(text.contains(&format!("- {} Localization: {}\n", cyan("de"), cyan("Hallo"))));
    assert!(text.contains(&format!("- {} Localization: {}\n", cyan("fr"), cyan("Bonjour"))));
}

#[test]
fn choice_value_display() {
    let value = CommandManagerCommandOptionChoiceValue::Integer(42);
    assert_eq!(value.display(1), format!("      {}{}\n", bold("Command Option Choice Value: "), cyan("42")));
    let value = CommandManagerCommandOptionChoiceValue::String(String::from("x"));
    assert_eq!(value.display(0), format!("  {}{}\n", bold("Command Option Choice Value: "), cyan("x")));
    let value = CommandManagerCommandOptionChoiceValue::Number(2.5f64.to_string());
    assert_eq!(value.display(0), format!("  {}{}\n", bold("Command Option Choice Value: "), cyan("2.5")));
}

#[test]
fn choice_display_without_localizations() {
    let choice = CommandManagerCommandOptionChoice {
        name: String::from("first"),
        name_localizations: None,
        value: CommandManagerCommandOptionChoiceValue::Integer(1),
    };
    let expected = format!(
        "- {}{}\n  {}\u{1b}[38;2;107;107;107mNone\u{1b}[39m\n  {}{}\n",
        bold("Command Option Choice Name: "),
        cyan("first"),
        bold("Command Option Choice Name Localizations: "),
        bold("Command Option Choice Value: "),
        cyan("1"),
    );
    assert_eq!(choice.display(0), expected);
}

#[test]
fn choice_display_with_localizations() {
    let mut localizations = HashMap::new();
    localizations.insert(String::from("ja"), String::from("一"));
    let choice = CommandManagerCommandOptionChoice {
        name: String::from("first"),
        name_localizations: Some(localizations),
        value: CommandManagerCommandOptionChoiceValue::String(String::from("v")),
    };
    let expected = format!(
        "    - {}{}\n      {}\n        - {} Localization: {}\n      {}{}\n",
        bold("Command Option Choice Name: "),
        cyan("first"),
        bold("Command Option Choice Name Localizations: "),
        cyan("ja"),
        cyan("一"),
        bold("Command Option Choice Value: "),
        cyan("v"),
    );
    assert_eq!(choice.display(1), expected);
}
