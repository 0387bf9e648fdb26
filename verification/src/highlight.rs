//! Syntax highlighting of code blocks.

use crate::render_line::{Color, DirectStyle};
use crate::text::texts;
use vstd::prelude::*;

verus! {

#[verifier::external_type_specification]
#[verifier::external_body]
pub struct ExSyntaxSet(syntect::parsing::SyntaxSet);

#[verifier::external_type_specification]
#[verifier::external_body]
pub struct ExThemeSet(syntect::highlighting::ThemeSet);

/// A run of code in one style: colours as red, green and blue, and the font
/// bits (1 bold, 2 underlined, 4 italic).
#[derive(Debug)]
pub struct CodeRun {
    pub fg: (u8, u8, u8),
    pub bg: (u8, u8, u8),
    pub font: u8,
    pub text: String,
}

/// What a run shows.
pub struct CodeRunView {
    pub fg: (u8, u8, u8),
    pub bg: (u8, u8, u8),
    pub font: u8,
    pub text: Seq<char>,
}

impl View for CodeRun {
    type V = CodeRunView;

    open spec fn view(&self) -> CodeRunView {
        CodeRunView { fg: self.fg, bg: self.bg, font: self.font, text: self.text@ }
    }
}

/// What a highlighted line shows; nothing where highlighting it failed.
pub open spec fn line_runs(line: Option<Vec<CodeRun>>) -> Option<Seq<CodeRunView>> {
    match line {
        Some(v) => Some(Seq::new(v@.len(), |i: int| v@[i]@)),
        None => None,
    }
}

/// What highlighted lines show.
pub open spec fn all_runs(v: Seq<Option<Vec<CodeRun>>>) -> Seq<Option<Seq<CodeRunView>>> {
    Seq::new(v.len(), |i: int| line_runs(v[i]))
}

/// The language that a code block names.
pub open spec fn lang_view(lang: Option<&str>) -> Option<Seq<char>> {
    match lang {
        Some(l) => Some(l@),
        None => None,
    }
}

/// Syntect's default syntaxes hold one that `token` names.
pub uninterp spec fn syntax_known(token: Seq<char>) -> bool;

/// The runs of each of `lines` when they are highlighted one after the other
/// with syntect's default syntax for `token`, or as plain text where there is
/// no token, in one of its default themes.
pub uninterp spec fn highlighted(
    token: Option<Seq<char>>,
    theme: Seq<char>,
    lines: Seq<Seq<char>>,
) -> Seq<Option<Seq<CodeRunView>>>;

/// The names of the themes that syntect ships.
pub open spec fn theme_shipped(name: Seq<char>) -> bool {
    ||| name == "base16-ocean.dark"@
    ||| name == "base16-eighties.dark"@
    ||| name == "base16-mocha.dark"@
    ||| name == "base16-ocean.light"@
    ||| name == "InspiredGitHub"@
    ||| name == "Solarized (dark)"@
    ||| name == "Solarized (light)"@
}

/// The default syntaxes and themes of syntect.
pub struct Highlighter {
    syntaxes: syntect::parsing::SyntaxSet,
    themes: syntect::highlighting::ThemeSet,
}

/// `SyntaxSet::load_defaults_newlines`: the syntaxes that syntect ships.
#[verifier::external_body]
fn default_syntaxes() -> (s: syntect::parsing::SyntaxSet) {
    syntect::parsing::SyntaxSet::load_defaults_newlines()
}

/// `ThemeSet::load_defaults`: the themes that syntect ships.
#[verifier::external_body]
fn default_themes() -> (t: syntect::highlighting::ThemeSet) {
    syntect::highlighting::ThemeSet::load_defaults()
}

impl Highlighter {
    /// Loads the default syntaxes and themes.
    pub fn new() -> (h: Self) {
        Highlighter { syntaxes: default_syntaxes(), themes: default_themes() }
    }

    /// `SyntaxSet::find_syntax_by_token`: whether it finds a syntax. A
    /// `Highlighter` holds nothing but the defaults, so that is a matter of the
    /// token alone.
    #[verifier::external_body]
    pub(crate) fn knows_syntax(&self, token: &str) -> (r: bool)
        ensures
            r == syntax_known(token@),
    {
        self.syntaxes.find_syntax_by_token(token).is_some()
    }

    /// `HighlightLines::highlight_line` on each line in turn, with the syntax
    /// that `find_syntax_by_token` gives for the token, or that of
    /// `find_syntax_plain_text` without a token, and a default theme. A
    /// `Highlighter` holds nothing but the defaults, so the result is a function
    /// of the arguments; there is one result for each line. An unknown token or
    /// theme would panic and is left out.
    #[verifier::external_body]
    pub(crate) fn highlight_as(&self, token: Option<&str>, theme: &str, lines: &Vec<String>) -> (out:
        Vec<Option<Vec<CodeRun>>>)
        requires
            token matches Some(t) ==> syntax_known(t@),
            theme_shipped(theme@),
        ensures
            all_runs(out@) == highlighted(lang_view(token), theme@, texts(lines@)),
            out@.len() == lines@.len(),
    {
        let syntax = match token {
            Some(t) => self.syntaxes.find_syntax_by_token(t).unwrap(),
            None => self.syntaxes.find_syntax_plain_text(),
        };
        let mut state = syntect::easy::HighlightLines::new(syntax, &self.themes.themes[theme]);
        lines.iter().map(|line| Some(
            state.highlight_line(line, &self.syntaxes).ok()?.into_iter().map(|(s, t)| CodeRun {
                fg: (s.foreground.r, s.foreground.g, s.foreground.b),
                bg: (s.background.r, s.background.g, s.background.b),
                font: s.font_style.bits(),
                text: t.to_string(),
            }).collect(),
        )).collect()
    }
}

/// The style of a run.
pub open spec fn run_style(fg: (u8, u8, u8), bg: (u8, u8, u8), font: u8) -> DirectStyle {
    DirectStyle {
        fg: Some(Color::Rgb(fg.0, fg.1, fg.2)),
        bg: Some(Color::Rgb(bg.0, bg.1, bg.2)),
        bold: font & 1 != 0,
        italic: font & 4 != 0,
        underlined: font & 2 != 0,
    }
}

/// The style of a run.
pub fn direct_style(run: &CodeRun) -> (s: DirectStyle)
    ensures
        s == run_style(run.fg, run.bg, run.font),
{
    DirectStyle {
        fg: Some(Color::Rgb(run.fg.0, run.fg.1, run.fg.2)),
        bg: Some(Color::Rgb(run.bg.0, run.bg.1, run.bg.2)),
        bold: run.font & 1 != 0,
        italic: run.font & 4 != 0,
        underlined: run.font & 2 != 0,
    }
}

} // verus!
