//! Discord message embeds as the bot's commands build them, with the limits
//! that Discord puts on an embed.

use vstd::prelude::*;
use vstd::string::StrSliceExecFns;
use crate::text::chars_of;

verus! {

/// The maximum number of characters of an author name.
pub const AUTHOR_NAME_LENGTH: usize = 256;
/// The largest accepted color (`0xFFFFFF`).
pub const COLOR_MAXIMUM: u32 = 0xff_ff_ff;
/// The maximum number of characters of a description.
pub const DESCRIPTION_LENGTH: usize = 4096;
/// The maximum number of characters of an embed in total.
pub const EMBED_TOTAL_LENGTH: usize = 6000;
/// The maximum number of fields.
pub const FIELD_COUNT: usize = 25;
/// The maximum number of characters of a field name.
pub const FIELD_NAME_LENGTH: usize = 256;
/// The maximum number of characters of a field value.
pub const FIELD_VALUE_LENGTH: usize = 1024;
/// The maximum number of characters of a footer text.
pub const FOOTER_TEXT_LENGTH: usize = 2048;
/// The maximum number of characters of a title.
pub const TITLE_LENGTH: usize = 256;

/// The author of an embed.
pub struct EmbedAuthor {
    pub name: String,
    pub icon_url: Option<String>,
}

/// A field of an embed.
pub struct EmbedField {
    pub name: String,
    pub value: String,
    pub inline: bool,
}

/// The footer of an embed.
pub struct EmbedFooter {
    pub text: String,
    pub icon_url: Option<String>,
}

/// A rich embed.
pub struct Embed {
    pub author: Option<EmbedAuthor>,
    pub color: Option<u32>,
    pub description: Option<String>,
    pub fields: Vec<EmbedField>,
    pub footer: Option<EmbedFooter>,
    pub thumbnail: Option<String>,
    pub title: Option<String>,
}

/// Why an embed is not valid.
pub enum EmbedValidationError {
    AuthorNameTooLarge { chars: usize },
    ColorNotRgb { color: u32 },
    DescriptionTooLarge { chars: usize },
    EmbedTooLarge { chars: usize },
    FieldNameTooLarge { chars: usize },
    FieldValueTooLarge { chars: usize },
    FooterTextTooLarge { chars: usize },
    TitleTooLarge { chars: usize },
    TooManyFields { amount: usize },
}

/// An image URL was refused: only `http:` and `https:` URLs are accepted.
pub struct ImageSourceUrlError {
    pub url: String,
}

/// The view of an optional string: its characters, if any.
pub open spec fn opt_view(s: Option<String>) -> Option<Seq<char>> {
    match s {
        Some(t) => Some(t@),
        None => None,
    }
}

/// The author of an embed, as text.
pub struct AuthorView {
    pub name: Seq<char>,
    pub icon_url: Option<Seq<char>>,
}

/// A field of an embed, as text.
pub struct FieldView {
    pub name: Seq<char>,
    pub value: Seq<char>,
    pub inline: bool,
}

/// The footer of an embed, as text.
pub struct FooterView {
    pub text: Seq<char>,
    pub icon_url: Option<Seq<char>>,
}

/// An embed, as text.
pub struct EmbedView {
    pub author: Option<AuthorView>,
    pub color: Option<u32>,
    pub description: Option<Seq<char>>,
    pub fields: Seq<FieldView>,
    pub footer: Option<FooterView>,
    pub thumbnail: Option<Seq<char>>,
    pub title: Option<Seq<char>>,
}

impl View for EmbedAuthor {
    type V = AuthorView;

    open spec fn view(&self) -> AuthorView {
        AuthorView { name: self.name@, icon_url: opt_view(self.icon_url) }
    }
}

impl View for EmbedField {
    type V = FieldView;

    open spec fn view(&self) -> FieldView {
        FieldView { name: self.name@, value: self.value@, inline: self.inline }
    }
}

impl View for EmbedFooter {
    type V = FooterView;

    open spec fn view(&self) -> FooterView {
        FooterView { text: self.text@, icon_url: opt_view(self.icon_url) }
    }
}

impl View for Embed {
    type V = EmbedView;

    open spec fn view(&self) -> EmbedView {
        EmbedView {
            author: match self.author {
                Some(a) => Some(a@),
                None => None,
            },
            color: self.color,
            description: opt_view(self.description),
            fields: self.fields@.map_values(|f: EmbedField| f@),
            footer: match self.footer {
                Some(f) => Some(f@),
                None => None,
            },
            thumbnail: opt_view(self.thumbnail),
            title: opt_view(self.title),
        }
    }
}

/// An embed with nothing set.
pub open spec fn empty_embed() -> EmbedView {
    EmbedView {
        author: None,
        color: None,
        description: None,
        fields: Seq::empty(),
        footer: None,
        thumbnail: None,
        title: None,
    }
}

/// A field that is not inline, as `EmbedFieldBuilder::new` makes it.
pub open spec fn plain_field(name: Seq<char>, value: Seq<char>) -> FieldView {
    FieldView { name, value, inline: false }
}

/// `s` begins with `p`.
pub open spec fn has_prefix(s: Seq<char>, p: Seq<char>) -> bool {
    p.len() <= s.len() && s.subrange(0, p.len() as int) == p
}

/// An image URL that an embed accepts: one that begins with `https:` or
/// `http:`.
pub open spec fn accepted_url(url: Seq<char>) -> bool {
    has_prefix(url, "https:"@) || has_prefix(url, "http:"@)
}

/// Whether `s` begins with `p`.
pub fn starts_with(s: &str, p: &str) -> (r: bool)
    ensures
        r == has_prefix(s@, p@),
{
    let sc = chars_of(s);
    let pc = chars_of(p);
    if pc.len() > sc.len() {
        return false;
    }
    let mut i: usize = 0;
    while i < pc.len()
        invariant
            pc@ == p@,
            sc@ == s@,
            pc.len() <= sc.len(),
            i <= pc.len(),
            forall|k: int| 0 <= k < i ==> sc@[k] == pc@[k],
        decreases pc.len() - i,
    {
        if sc[i] != pc[i] {
            assert(s@.subrange(0, p@.len() as int)[i as int] != p@[i as int]);
            return false;
        }
        i += 1;
    }
    assert(s@.subrange(0, p@.len() as int) =~= p@);
    true
}

/// The URL of an image, checked as `ImageSource::url` does: the URL must
/// begin with `https:` or `http:`.
pub fn image_url(url: String) -> (r: Result<String, ImageSourceUrlError>)
    ensures
        match r {
            Ok(u) => u@ == url@ && accepted_url(url@),
            Err(e) => e.url@ == url@ && !accepted_url(url@),
        },
{
    if !starts_with(url.as_str(), "https:") && !starts_with(url.as_str(), "http:") {
        return Err(ImageSourceUrlError { url });
    }
    Ok(url)
}

/// The number of characters of an optional text (none counts nothing).
pub open spec fn opt_len(s: Option<Seq<char>>) -> nat {
    match s {
        Some(t) => t.len(),
        None => 0,
    }
}

/// The number of characters of the names and values of the fields.
pub open spec fn fields_chars(fields: Seq<FieldView>) -> nat
    decreases fields.len(),
{
    if fields.len() == 0 {
        0
    } else {
        fields_chars(fields.drop_last()) + fields.last().name.len() + fields.last().value.len()
    }
}

/// The characters of an embed that count towards its total: the author's
/// name, the description, the footer's text, the fields' names and values
/// and the title.
pub open spec fn embed_chars(e: EmbedView) -> nat {
    (match e.author {
        Some(a) => a.name.len(),
        None => 0,
    }) + opt_len(e.description) + (match e.footer {
        Some(f) => f.text.len(),
        None => 0,
    }) + fields_chars(e.fields) + opt_len(e.title)
}

/// A count as a `usize`, saturating at `usize::MAX`.
pub open spec fn counted(n: nat) -> usize {
    if n <= usize::MAX {
        n as usize
    } else {
        usize::MAX
    }
}

/// The first field, in order, whose name or value is too long, as the error
/// that it gives.
pub open spec fn field_problem(fields: Seq<FieldView>) -> Option<EmbedValidationError>
    decreases fields.len(),
{
    if fields.len() == 0 {
        None
    } else if fields[0].name.len() > FIELD_NAME_LENGTH {
        Some(EmbedValidationError::FieldNameTooLarge { chars: fields[0].name.len() as usize })
    } else if fields[0].value.len() > FIELD_VALUE_LENGTH {
        Some(EmbedValidationError::FieldValueTooLarge { chars: fields[0].value.len() as usize })
    } else {
        field_problem(fields.drop_first())
    }
}

/// The outcome of validating an embed: the checks in this order, the first
/// that fails giving the error.
pub open spec fn validation(e: EmbedView) -> Result<(), EmbedValidationError> {
    if embed_chars(e) > EMBED_TOTAL_LENGTH {
        Err(EmbedValidationError::EmbedTooLarge { chars: counted(embed_chars(e)) })
    } else if e.color is Some && e.color->0 > COLOR_MAXIMUM {
        Err(EmbedValidationError::ColorNotRgb { color: e.color->0 })
    } else if opt_len(e.description) > DESCRIPTION_LENGTH {
        Err(EmbedValidationError::DescriptionTooLarge { chars: opt_len(e.description) as usize })
    } else if e.fields.len() > FIELD_COUNT {
        Err(EmbedValidationError::TooManyFields { amount: e.fields.len() as usize })
    } else if field_problem(e.fields) is Some {
        Err(field_problem(e.fields)->0)
    } else if e.footer is Some && e.footer->0.text.len() > FOOTER_TEXT_LENGTH {
        Err(EmbedValidationError::FooterTextTooLarge { chars: e.footer->0.text.len() as usize })
    } else if e.author is Some && e.author->0.name.len() > AUTHOR_NAME_LENGTH {
        Err(EmbedValidationError::AuthorNameTooLarge { chars: e.author->0.name.len() as usize })
    } else if opt_len(e.title) > TITLE_LENGTH {
        Err(EmbedValidationError::TitleTooLarge { chars: opt_len(e.title) as usize })
    } else {
        Ok(())
    }
}

/// Every field keeps the limits on names and values.
pub open spec fn fields_within_limits(fields: Seq<FieldView>) -> bool {
    forall|i: int| 0 <= i < fields.len() ==> (#[trigger] fields[i]).name.len() <= FIELD_NAME_LENGTH
        && fields[i].value.len() <= FIELD_VALUE_LENGTH
}

proof fn lemma_field_problem_none(fields: Seq<FieldView>)
    ensures
        field_problem(fields) is None <==> fields_within_limits(fields),
    decreases fields.len(),
{
    if fields.len() > 0 {
        lemma_field_problem_none(fields.drop_first());
        assert forall|i: int| 0 <= i < fields.len() - 1 implies #[trigger] fields.drop_first()[i] == fields[i + 1] by {}
        if fields_within_limits(fields) {
            assert(fields[0].name.len() <= FIELD_NAME_LENGTH && fields[0].value.len() <= FIELD_VALUE_LENGTH);
            assert forall|i: int| 0 <= i < fields.drop_first().len() implies (#[trigger] fields.drop_first()[i]).name.len()
                <= FIELD_NAME_LENGTH && fields.drop_first()[i].value.len() <= FIELD_VALUE_LENGTH by {
                assert(fields[i + 1].name.len() <= FIELD_NAME_LENGTH);
            }
        }
        if field_problem(fields) is None {
            assert forall|i: int| 0 <= i < fields.len() implies (#[trigger] fields[i]).name.len() <= FIELD_NAME_LENGTH
                && fields[i].value.len() <= FIELD_VALUE_LENGTH by {
                if i > 0 {
                    assert(fields.drop_first()[i - 1] == fields[i]);
                }
            }
        }
    }
}

/// An embed passes validation exactly when it keeps every limit: the total
/// characters, the color, the description, the number of fields, each
/// field's name and value, the footer, the author's name and the title.
pub proof fn lemma_valid_iff_within_limits(e: EmbedView)
    ensures
        validation(e) is Ok <==> {
            &&& embed_chars(e) <= EMBED_TOTAL_LENGTH
            &&& (e.color matches Some(c) ==> c <= COLOR_MAXIMUM)
            &&& opt_len(e.description) <= DESCRIPTION_LENGTH
            &&& e.fields.len() <= FIELD_COUNT
            &&& fields_within_limits(e.fields)
            &&& (e.footer matches Some(f) ==> f.text.len() <= FOOTER_TEXT_LENGTH)
            &&& (e.author matches Some(a) ==> a.name.len() <= AUTHOR_NAME_LENGTH)
            &&& opt_len(e.title) <= TITLE_LENGTH
        },
{
    lemma_field_problem_none(e.fields);
}

/// The number of characters of a string.
fn char_count(s: &String) -> (r: usize)
    ensures
        r == s@.len(),
{
    s.as_str().unicode_len()
}

fn opt_char_count(s: &Option<String>) -> (r: usize)
    ensures
        r == opt_len(opt_view(*s)),
{
    match s {
        Some(t) => char_count(t),
        None => 0,
    }
}

proof fn lemma_field_problem_suffix(fields: Seq<FieldView>, i: int)
    requires
        0 <= i <= fields.len(),
        forall|k: int| 0 <= k < i ==> fields[k].name.len() <= FIELD_NAME_LENGTH && fields[k].value.len() <= FIELD_VALUE_LENGTH,
    ensures
        field_problem(fields) == field_problem(fields.subrange(i, fields.len() as int)),
    decreases i,
{
    if i > 0 {
        assert(fields.drop_first().subrange(i - 1, fields.drop_first().len() as int) =~= fields.subrange(i, fields.len() as int));
        assert forall|k: int| 0 <= k < i - 1 implies fields.drop_first()[k].name.len() <= FIELD_NAME_LENGTH
            && fields.drop_first()[k].value.len() <= FIELD_VALUE_LENGTH by {
            assert(fields.drop_first()[k] == fields[k + 1]);
        }
        lemma_field_problem_suffix(fields.drop_first(), i - 1);
    } else {
        assert(fields.subrange(0, fields.len() as int) =~= fields);
    }
}

impl Embed {
    /// An embed with nothing set.
    pub fn new() -> (r: Self)
        ensures
            r@ == empty_embed(),
    {
        let e = Embed {
            author: None,
            color: None,
            description: None,
            fields: Vec::new(),
            footer: None,
            thumbnail: None,
            title: None,
        };
        assert(e@.fields =~= Seq::<FieldView>::empty());
        e
    }

    /// Set the author.
    pub fn author(self, author: EmbedAuthor) -> (r: Self)
        ensures
            r@ == (EmbedView { author: Some(author@), ..self@ }),
    {
        Embed { author: Some(author), ..self }
    }

    /// Set the color.
    pub fn color(self, color: u32) -> (r: Self)
        ensures
            r@ == (EmbedView { color: Some(color), ..self@ }),
    {
        Embed { color: Some(color), ..self }
    }

    /// Set the description.
    pub fn description(self, description: String) -> (r: Self)
        ensures
            r@ == (EmbedView { description: Some(description@), ..self@ }),
    {
        Embed { description: Some(description), ..self }
    }

    /// Add a field after the existing ones.
    pub fn field(self, field: EmbedField) -> (r: Self)
        ensures
            r@ == (EmbedView { fields: self@.fields.push(field@), ..self@ }),
    {
        let ghost before = self@;
        let ghost added = field@;
        let mut e = self;
        e.fields.push(field);
        assert(e@.fields =~= before.fields.push(added));
        e
    }

    /// Set the footer.
    pub fn footer(self, footer: EmbedFooter) -> (r: Self)
        ensures
            r@ == (EmbedView { footer: Some(footer@), ..self@ }),
    {
        Embed { footer: Some(footer), ..self }
    }

    /// Set the thumbnail.
    pub fn thumbnail(self, url: String) -> (r: Self)
        ensures
            r@ == (EmbedView { thumbnail: Some(url@), ..self@ }),
    {
        Embed { thumbnail: Some(url), ..self }
    }

    /// Set the title.
    pub fn title(self, title: String) -> (r: Self)
        ensures
            r@ == (EmbedView { title: Some(title@), ..self@ }),
    {
        Embed { title: Some(title), ..self }
    }

    /// The total number of characters that count towards the embed's limit
    /// (saturating at `usize::MAX`, which no embed held in memory reaches).
    pub fn chars(&self) -> (r: usize)
        ensures
            r == counted(embed_chars(self@)),
    {
        let mut total: usize = match &self.author {
            Some(a) => char_count(&a.name),
            None => 0,
        };
        total = total.saturating_add(opt_char_count(&self.description));
        match &self.footer {
            Some(f) => {
                total = total.saturating_add(char_count(&f.text));
            }
            None => {}
        }
        let ghost head: nat = (match self@.author {
            Some(a) => a.name.len(),
            None => 0,
        }) + opt_len(self@.description) + (match self@.footer {
            Some(f) => f.text.len(),
            None => 0,
        });
        let mut i: usize = 0;
        while i < self.fields.len()
            invariant
                head + fields_chars(self@.fields) + opt_len(self@.title) == embed_chars(self@),
                i <= self.fields.len(),
                total == counted(head + fields_chars(self@.fields.subrange(0, i as int))),
            decreases self.fields.len() - i,
        {
            proof {
                assert(self@.fields.subrange(0, i + 1).drop_last() =~= self@.fields.subrange(0, i as int));
            }
            let n = char_count(&self.fields[i].name);
            let v = char_count(&self.fields[i].value);
            total = total.saturating_add(n).saturating_add(v);
            i += 1;
        }
        assert(self@.fields.subrange(0, self.fields.len() as int) =~= self@.fields);
        total = total.saturating_add(opt_char_count(&self.title));
        total
    }

    /// Ensure the embed is correct: checks the limits in the order of
    /// `validation` and gives the first that fails.
    pub fn validate(&self) -> (r: Result<(), EmbedValidationError>)
        ensures
            r == validation(self@),
    {
        let chars = self.chars();
        if chars > EMBED_TOTAL_LENGTH {
            return Err(EmbedValidationError::EmbedTooLarge { chars });
        }
        if let Some(color) = self.color {
            if color > COLOR_MAXIMUM {
                return Err(EmbedValidationError::ColorNotRgb { color });
            }
        }
        let description = opt_char_count(&self.description);
        if description > DESCRIPTION_LENGTH {
            return Err(EmbedValidationError::DescriptionTooLarge { chars: description });
        }
        if self.fields.len() > FIELD_COUNT {
            return Err(EmbedValidationError::TooManyFields { amount: self.fields.len() });
        }
        let mut i: usize = 0;
        while i < self.fields.len()
            invariant
                embed_chars(self@) <= EMBED_TOTAL_LENGTH,
                !(self.color is Some && self.color->0 > COLOR_MAXIMUM),
                opt_len(self@.description) <= DESCRIPTION_LENGTH,
                self.fields@.len() <= FIELD_COUNT,
                i <= self.fields.len(),
                forall|k: int| 0 <= k < i ==> self@.fields[k].name.len() <= FIELD_NAME_LENGTH
                    && self@.fields[k].value.len() <= FIELD_VALUE_LENGTH,
            decreases self.fields.len() - i,
        {
            let name_chars = char_count(&self.fields[i].name);
            if name_chars > FIELD_NAME_LENGTH {
                proof {
                    lemma_field_problem_suffix(self@.fields, i as int);
                    assert(self@.fields.subrange(i as int, self.fields@.len() as int)[0] == self@.fields[i as int]);
                }
                return Err(EmbedValidationError::FieldNameTooLarge { chars: name_chars });
            }
            let value_chars = char_count(&self.fields[i].value);
            if value_chars > FIELD_VALUE_LENGTH {
                proof {
                    lemma_field_problem_suffix(self@.fields, i as int);
                    assert(self@.fields.subrange(i as int, self.fields@.len() as int)[0] == self@.fields[i as int]);
                }
                return Err(EmbedValidationError::FieldValueTooLarge { chars: value_chars });
            }
            i += 1;
        }
        proof {
            lemma_field_problem_suffix(self@.fields, self.fields@.len() as int);
        }
        if let Some(footer) = &self.footer {
            let footer_chars = char_count(&footer.text);
            if footer_chars > FOOTER_TEXT_LENGTH {
                return Err(EmbedValidationError::FooterTextTooLarge { chars: footer_chars });
            }
        }
        if let Some(author) = &self.author {
            let author_chars = char_count(&author.name);
            if author_chars > AUTHOR_NAME_LENGTH {
                return Err(EmbedValidationError::AuthorNameTooLarge { chars: author_chars });
            }
        }
        let title = opt_char_count(&self.title);
        if title > TITLE_LENGTH {
            return Err(EmbedValidationError::TitleTooLarge { chars: title });
        }
        Ok(())
    }
}

} // verus!
