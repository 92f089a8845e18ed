use hartex::embed::{image_url, Embed, EmbedAuthor, EmbedField, EmbedFooter, EmbedValidationError};
use twilight_model::channel::message::embed::{
    Embed as TwilightEmbed, EmbedAuthor as TwilightAuthor, EmbedField as TwilightField,
    EmbedFooter as TwilightFooter,
};
use twilight_validate::embed::EmbedValidationErrorType;

fn text(n: usize) -> String {
    "é".repeat(n)
}

fn field(name: String, value: String) -> EmbedField {
    EmbedField { name, value, inline: false }
}

fn to_twilight(e: &Embed) -> TwilightEmbed {
    TwilightEmbed {
        author: e.author.as_ref().map(|a| TwilightAuthor {
            icon_url: a.icon_url.clone(),
            name: a.name.clone(),
            proxy_icon_url: None,
            url: None,
        }),
        color: e.color,
        description: e.description.clone(),
        fields: e.fields.iter().map(|f| TwilightField { inline: f.inline, name: f.name.clone(), value: f.value.clone() }).collect(),
        flags: None,
        footer: e.footer.as_ref().map(|f| TwilightFooter { icon_url: f.icon_url.clone(), proxy_icon_url: None, text: f.text.clone() }),
        image: None,
        kind: String::from("rich"),
        provider: None,
        thumbnail: None,
        timestamp: None,
        title: e.title.clone(),
        url: None,
        video: None,
    }
}

fn same_outcome(e: &Embed) -> bool {
    let ours = e.validate();
    let theirs = twilight_validate::embed::embed(&to_twilight(e));
    match (ours, theirs) {
        (Ok(()), Ok(())) => true,
        (Err(a), Err(b)) => match (a, b.kind()) {
            (EmbedValidationError::AuthorNameTooLarge { chars }, EmbedValidationErrorType::AuthorNameTooLarge { chars: c }) => chars == *c,
            (EmbedValidationError::ColorNotRgb { color }, EmbedValidationErrorType::ColorNotRgb { color: c }) => color == *c,
            (EmbedValidationError::DescriptionTooLarge { chars }, EmbedValidationErrorType::DescriptionTooLarge { chars: c }) => chars == *c,
            (EmbedValidationError::EmbedTooLarge { chars }, EmbedValidationErrorType::EmbedTooLarge { chars: c }) => chars == *c,
            (EmbedValidationError::FieldNameTooLarge { chars }, EmbedValidationErrorType::FieldNameTooLarge { chars: c }) => chars == *c,
            (EmbedValidationError::FieldValueTooLarge { chars }, EmbedValidationErrorType::FieldValueTooLarge { chars: c }) => chars == *c,
            (EmbedValidationError::FooterTextTooLarge { chars }, EmbedValidationErrorType::FooterTextTooLarge { chars: c }) => chars == *c,
            (EmbedValidationError::TitleTooLarge { chars }, EmbedValidationErrorType::TitleTooLarge { chars: c }) => chars == *c,
            (EmbedValidationError::TooManyFields { amount }, EmbedValidationErrorType::TooManyFields { amount: c }) => amount == *c,
            _ => false,
        },
        _ => false,
    }
}

#[test]
fn builder_sets_parts() {
    let e = Embed::new()
        .title(String::from("t"))
        .color(0x41_A0_DE)
        .description(String::from("d"))
        .field(field(String::from("n1"), String::from("v1")))
        .field(field(String::from("n2"), String::from("v2")))
        .footer(EmbedFooter { text: String::from("f"), icon_url: None })
        .author(EmbedAuthor { name: String::from("a"), icon_url: None })
        .thumbnail(String::from("https://x"));
    assert_eq!(e.title.as_deref(), Some("t"));
    assert_eq!(e.color, Some(0x41_A0_DE));
    assert_eq!(e.fields.len(), 2);
    assert_eq!(e.fields[1].name, "n2");
    assert_eq!(e.chars(), 1 + 1 + 1 + 4 + 4 + 1);
    assert!(e.validate().is_ok());
}

#[test]
fn each_limit_gives_its_error() {
    let too_long_title = Embed::new().title(text(257));
    assert!(matches!(too_long_title.validate(), Err(EmbedValidationError::TitleTooLarge { chars: 257 })));
    let color = Embed::new().color(0x1_00_00_00);
    assert!(matches!(color.validate(), Err(EmbedValidationError::ColorNotRgb { color: 0x1_00_00_00 })));
    let description = Embed::new().description(text(4097));
    assert!(matches!(description.validate(), Err(EmbedValidationError::DescriptionTooLarge { chars: 4097 })));
    let total = Embed::new().description(text(4000)).title(text(200)).footer(EmbedFooter { text: text(2000), icon_url: None });
    assert!(matches!(total.validate(), Err(EmbedValidationError::EmbedTooLarge { chars: 6200 })));
    let mut many = Embed::new();
    for _ in 0..26 {
        many = many.field(field(String::from("n"), String::from("v")));
    }
    assert!(matches!(many.validate(), Err(EmbedValidationError::TooManyFields { amount: 26 })));
    let name = Embed::new().field(field(text(257), String::from("v")));
    assert!(matches!(name.validate(), Err(EmbedValidationError::FieldNameTooLarge { chars: 257 })));
    let value = Embed::new().field(field(String::from("n"), text(1025)));
    assert!(matches!(value.validate(), Err(EmbedValidationError::FieldValueTooLarge { chars: 1025 })));
    let footer = Embed::new().footer(EmbedFooter { text: text(2049), icon_url: None });
    assert!(matches!(footer.validate(), Err(EmbedValidationError::FooterTextTooLarge { chars: 2049 })));
    let author = Embed::new().author(EmbedAuthor { name: text(257), icon_url: None });
    assert!(matches!(author.validate(), Err(EmbedValidationError::AuthorNameTooLarge { chars: 257 })));
}

#[test]
fn limits_are_inclusive() {
    let e = Embed::new()
        .title(text(256))
        .description(text(4096))
        .color(0xFF_FF_FF)
        .author(EmbedAuthor { name: text(256), icon_url: None });
    assert!(e.validate().is_ok());
}

#[test]
fn validation_agrees_with_twilight_validate() {
    let samples = vec![
        Embed::new(),
        Embed::new().title(text(300)).color(0x1_00_00_00),
        Embed::new().field(field(text(10), text(1025))).field(field(text(300), text(1))),
        Embed::new().field(field(text(300), text(1))).footer(EmbedFooter { text: text(3000), icon_url: None }),
        Embed::new().description(text(5000)).author(EmbedAuthor { name: text(300), icon_url: None }),
        Embed::new().description(text(3000)).field(field(text(200), text(1000))).field(field(text(200), text(1000)))
            .footer(EmbedFooter { text: text(1000), icon_url: None }),
        Embed::new().author(EmbedAuthor { name: text(257), icon_url: None }).title(text(257)),
    ];
    for e in &samples {
        assert!(same_outcome(e));
    }
}

#[test]
fn image_urls_need_http() {
    assert!(image_url(String::from("https://cdn.discordapp.com/a.png")).is_ok());
    assert!(image_url(String::from("http://example.com/a.png")).is_ok());
    let refused = image_url(String::from("ftp://example.com/a.png"));
    assert!(matches!(refused, Err(e) if e.url == "ftp://example.com/a.png"));
    assert!(image_url(String::new()).is_err());
}
