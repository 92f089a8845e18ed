//! Discord markdown styling.

use vstd::prelude::*;

verus! {

/// `prefix`, then `text`, then `suffix`.
pub open spec fn wrapped(prefix: Seq<char>, text: Seq<char>, suffix: Seq<char>) -> Seq<char> {
    prefix + text + suffix
}

/// The text of `text` in bold: `**text**`.
pub open spec fn bold_text(text: Seq<char>) -> Seq<char> {
    wrapped(seq!['*', '*'], text, seq!['*', '*'])
}

/// The text of `text` as a code block: three backticks on each side.
pub open spec fn codeblock_text(text: Seq<char>) -> Seq<char> {
    wrapped(seq!['`', '`', '`'], text, seq!['`', '`', '`'])
}

/// The text of `text` as inline code: one backtick on each side.
pub open spec fn inline_code_text(text: Seq<char>) -> Seq<char> {
    wrapped(seq!['`'], text, seq!['`'])
}

/// The text of `text` in italics: `*text*`.
pub open spec fn italic_text(text: Seq<char>) -> Seq<char> {
    wrapped(seq!['*'], text, seq!['*'])
}

/// A relative timestamp: `<t:text:R>`.
pub open spec fn relative_timestamp_text(text: Seq<char>) -> Seq<char> {
    wrapped(seq!['<', 't', ':'], text, seq![':', 'R', '>'])
}

/// The text of `text` underlined: `__text__`.
pub open spec fn underline_text(text: Seq<char>) -> Seq<char> {
    wrapped(seq!['_', '_'], text, seq!['_', '_'])
}

/// The text of `text` struck through: `~~text~~`.
pub open spec fn strikethrough_text(text: Seq<char>) -> Seq<char> {
    wrapped(seq!['~', '~'], text, seq!['~', '~'])
}

fn wrap(text: String, prefix: &str, suffix: &str) -> (r: String)
    ensures
        r@ == wrapped(prefix@, text@, suffix@),
{
    let mut out = String::new();
    out.append(prefix);
    out.append(text.as_str());
    out.append(suffix);
    out
}

/// A DSL to add Discord markdown styles.
pub trait MarkdownStyle {
    /// Apply the bold style.
    fn discord_bold(self) -> Self;

    /// Apply the codeblock style.
    fn discord_codeblock(self) -> Self;

    /// Apply the inline code style.
    fn discord_inline_code(self) -> Self;

    /// Apply the italic style.
    fn discord_italic(self) -> Self;

    /// Apply the relative timestamp style.
    fn discord_relative_timestamp(self) -> Self;

    /// Apply the underline style.
    fn discord_underline(self) -> Self;

    /// Apply the strikethrough style.
    fn discord_strikethrough(self) -> Self;
}

impl MarkdownStyle for String {
    fn discord_bold(self) -> (r: String)
        ensures
            r@ == bold_text(self@),
    {
        proof {
            reveal_strlit("**");
        }
        wrap(self, "**", "**")
    }

    fn discord_codeblock(self) -> (r: String)
        ensures
            r@ == codeblock_text(self@),
    {
        proof {
            reveal_strlit("```");
        }
        wrap(self, "```", "```")
    }

    fn discord_inline_code(self) -> (r: String)
        ensures
            r@ == inline_code_text(self@),
    {
        proof {
            reveal_strlit("`");
        }
        wrap(self, "`", "`")
    }

    fn discord_italic(self) -> (r: String)
        ensures
            r@ == italic_text(self@),
    {
        proof {
            reveal_strlit("*");
        }
        wrap(self, "*", "*")
    }

    fn discord_relative_timestamp(self) -> (r: String)
        ensures
            r@ == relative_timestamp_text(self@),
    {
        proof {
            reveal_strlit("<t:");
            reveal_strlit(":R>");
        }
        wrap(self, "<t:", ":R>")
    }

    fn discord_underline(self) -> (r: String)
        ensures
            r@ == underline_text(self@),
    {
        proof {
            reveal_strlit("__");
        }
        wrap(self, "__", "__")
    }

    fn discord_strikethrough(self) -> (r: String)
        ensures
            r@ == strikethrough_text(self@),
    {
        proof {
            reveal_strlit("~~");
        }
        wrap(self, "~~", "~~")
    }
}

/// Every style leaves the styled text intact between its markers: the
/// original text can be read back from the styled one by dropping as many
/// characters on each side as the markers hold.
pub proof fn lemma_styles_keep_text(text: Seq<char>)
    ensures
        bold_text(text).subrange(2, 2 + text.len() as int) == text,
        codeblock_text(text).subrange(3, 3 + text.len() as int) == text,
        inline_code_text(text).subrange(1, 1 + text.len() as int) == text,
        italic_text(text).subrange(1, 1 + text.len() as int) == text,
        relative_timestamp_text(text).subrange(3, 3 + text.len() as int) == text,
        underline_text(text).subrange(2, 2 + text.len() as int) == text,
        strikethrough_text(text).subrange(2, 2 + text.len() as int) == text,
{
    assert(bold_text(text).subrange(2, 2 + text.len() as int) =~= text);
    assert(codeblock_text(text).subrange(3, 3 + text.len() as int) =~= text);
    assert(inline_code_text(text).subrange(1, 1 + text.len() as int) =~= text);
    assert(italic_text(text).subrange(1, 1 + text.len() as int) =~= text);
    assert(relative_timestamp_text(text).subrange(3, 3 + text.len() as int) =~= text);
    assert(underline_text(text).subrange(2, 2 + text.len() as int) =~= text);
    assert(strikethrough_text(text).subrange(2, 2 + text.len() as int) =~= text);
}

} // verus!
