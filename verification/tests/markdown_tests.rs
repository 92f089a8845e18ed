use hartex::markdown::MarkdownStyle;

#[test]
fn markdown_styles_wrap_text() {
    assert_eq!(String::from("x").discord_bold(), "**x**");
    assert_eq!(String::from("x").discord_codeblock(), "```x```");
    assert_eq!(String::from("x").discord_inline_code(), "`x`");
    assert_eq!(String::from("x").discord_italic(), "*x*");
    assert_eq!(String::from("123").discord_relative_timestamp(), "<t:123:R>");
    assert_eq!(String::from("x").discord_underline(), "__x__");
    assert_eq!(String::from("x").discord_strikethrough(), "~~x~~");
}

#[test]
fn styled_text_reads_back() {
    let text = "some text";
    let styled = String::from(text).discord_relative_timestamp();
    assert_eq!(&styled[3..3 + text.len()], text);
    let styled = String::from(text).discord_codeblock();
    assert_eq!(&styled[3..3 + text.len()], text);
}
