use vstd::prelude::*;

use vstd::string::StringSliceAdditionalSpecFns;
use vstd::utf8::encode_utf8;

use syntect::highlighting::{HighlightIterator, HighlightState, Highlighter, Theme, ThemeSet};
use syntect::parsing::{ParseState, ScopeStack, SyntaxReference, SyntaxSet};

verus! {

// The highlighting collaborator.  Parsing and highlighting states are opaque
// values of syntect; what the verifier sees of them is a ghost trace: which
// theme and syntax they were built from, and which lines they have consumed,
// each line recorded with the theme in force when it was advanced.  With the
// built-in assets both states are functions of that trace, so the spans a
// line yields bear a single name, `hl_spans`, over the trace.

#[verifier::external_type_specification]
#[verifier::external_body]
pub struct ExTheme(Theme);

#[verifier::external_type_specification]
#[verifier::external_body]
pub struct ExSyntaxSet(SyntaxSet);

#[verifier::external_type_specification]
#[verifier::external_body]
pub struct ExSyntaxReference(SyntaxReference);

#[verifier::external_type_specification]
#[verifier::external_body]
pub struct ExParseState(ParseState);

#[verifier::external_type_specification]
#[verifier::external_body]
pub struct ExHighlightState(HighlightState);

#[verifier::external_type_specification]
#[verifier::external_body]
pub struct ExSynStyle(syntect::highlighting::Style);

/// An RGBA colour of a styled span.
#[derive(Clone, Copy, PartialEq, Eq, Structural, Debug)]
pub struct Color {
    pub r: u8,
    pub g: u8,
    pub b: u8,
    pub a: u8,
}

/// The rendering of one span: its colours and its font flags.
#[derive(Clone, Copy, PartialEq, Eq, Structural, Debug)]
pub struct SpanStyle {
    pub foreground: Color,
    pub background: Color,
    pub font_style: u8,
}

/// A theme chosen from the built-in theme set, remembered with its name.
pub struct ThemePick {
    pub name: String,
    pub theme: Theme,
}

/// A syntax definition chosen from the built-in syntax set, remembered with
/// its name.
pub struct SyntaxPick {
    pub name: String,
    pub set: SyntaxSet,
    pub syntax: SyntaxReference,
}

/// The given name denotes one of the built-in themes.
pub uninterp spec fn is_prebuilt_theme(name: Seq<char>) -> bool;

/// The given name denotes one of the built-in syntax definitions.
pub uninterp spec fn is_prebuilt_syntax(name: Seq<char>) -> bool;

/// Relies on `ThemeSet::load_defaults` and its map lookup: the built-in theme
/// set is fixed data, so whether the name is found, and which theme comes
/// back, depend on the name alone.
#[verifier::external_body]
pub fn load_prebuilt_theme(name: &str) -> (r: Option<ThemePick>)
    ensures
        r is Some <==> is_prebuilt_theme(name@),
        r is Some ==> r.unwrap().name@ == name@,
{
    let ts = ThemeSet::load_defaults();
    let theme = ts.themes.get(name)?.clone();
    Some(ThemePick { name: name.to_string(), theme })
}

/// Relies on `SyntaxSet::load_defaults_nonewlines` and
/// `find_syntax_by_name`: the built-in syntax set is fixed data, so the
/// lookup depends on the name alone.  The set is kept beside the definition,
/// which refers into it.
#[verifier::external_body]
pub fn load_prebuilt_syntax(name: &str) -> (r: Option<SyntaxPick>)
    ensures
        r is Some <==> is_prebuilt_syntax(name@),
        r is Some ==> r.unwrap().name@ == name@,
{
    let set = SyntaxSet::load_defaults_nonewlines();
    let syntax = set.find_syntax_by_name(name)?.clone();
    Some(SyntaxPick { name: name.to_string(), set, syntax })
}

/// The styled spans that one line yields: a pure function of the syntax, the
/// history of lines consumed so far (each with the theme then in force), the
/// theme now in force, and the line's bytes.
pub uninterp spec fn hl_spans(
    syntax: Seq<char>,
    history: Seq<(Seq<char>, Seq<u8>)>,
    theme: Seq<char>,
    line: Seq<u8>,
) -> Seq<(SpanStyle, Seq<char>)>;

/// The spans of an executable result, as (style, characters) pairs.
pub open spec fn spans_view(v: Seq<(SpanStyle, String)>) -> Seq<(SpanStyle, Seq<char>)> {
    v.map(|i: int, p: (SpanStyle, String)| (p.0, p.1@))
}

/// The bytes of all span texts, in order.
pub open spec fn spans_bytes(v: Seq<(SpanStyle, Seq<char>)>) -> Seq<u8>
    decreases v.len(),
{
    if v.len() == 0 {
        Seq::empty()
    } else {
        encode_utf8(v[0].1) + spans_bytes(v.drop_first())
    }
}

/// A pair of parse and highlight states, advanced one line at a time.
pub struct HiState {
    pub theme: Theme,
    pub set: SyntaxSet,
    pub syntax: SyntaxReference,
    pub parse: ParseState,
    pub hstate: HighlightState,
    /// The name of the theme now in force.
    pub theme_name: Ghost<Seq<char>>,
    /// The name of the syntax definition in use.
    pub syntax_name: Ghost<Seq<char>>,
    /// The lines consumed so far, each with the theme then in force.
    pub consumed: Ghost<Seq<(Seq<char>, Seq<u8>)>>,
}

/// Relies on syntect's `ParseState::new`, `Highlighter::new` and
/// `HighlightState::new`: a fresh pair of states for the document start,
/// before any line.
#[verifier::external_body]
fn fresh_states(theme: &Theme, syntax: &SyntaxReference) -> (r: (ParseState, HighlightState)) {
    let parse = ParseState::new(syntax);
    let highlighter = Highlighter::new(theme);
    let hstate = HighlightState::new(&highlighter, ScopeStack::new());
    (parse, hstate)
}

/// Relies on `Clone` for syntect's types: the copies stand at the same
/// parsing and highlighting position as the originals.
#[verifier::external_body]
fn clone_parts(h: &HiState) -> (r: (Theme, SyntaxSet, SyntaxReference, ParseState,
    HighlightState)) {
    (h.theme.clone(), h.set.clone(), h.syntax.clone(), h.parse.clone(), h.hstate.clone())
}

impl HiState {
    /// A fresh pair of states for the document start, with no line consumed.
    pub fn new(theme: ThemePick, syntax: SyntaxPick) -> (r: HiState)
        ensures
            r.theme_name@ == theme.name@,
            r.syntax_name@ == syntax.name@,
            r.consumed@ == Seq::<(Seq<char>, Seq<u8>)>::empty(),
    {
        let (parse, hstate) = fresh_states(&theme.theme, &syntax.syntax);
        let ghost tn = theme.name@;
        let ghost sn = syntax.name@;
        HiState {
            theme: theme.theme,
            set: syntax.set,
            syntax: syntax.syntax,
            parse,
            hstate,
            theme_name: Ghost(tn),
            syntax_name: Ghost(sn),
            consumed: Ghost(Seq::empty()),
        }
    }

    /// A copy standing at the same position, with the same trace.
    pub fn duplicate(&self) -> (r: HiState)
        ensures
            r.theme_name@ == self.theme_name@,
            r.syntax_name@ == self.syntax_name@,
            r.consumed@ == self.consumed@,
    {
        let (theme, set, syntax, parse, hstate) = clone_parts(self);
        HiState {
            theme,
            set,
            syntax,
            parse,
            hstate,
            theme_name: Ghost(self.theme_name@),
            syntax_name: Ghost(self.syntax_name@),
            consumed: Ghost(self.consumed@),
        }
    }

    /// Use the given theme for the lines still to come.
    pub fn set_theme(&mut self, theme: ThemePick)
        ensures
            final(self).theme_name@ == theme.name@,
            final(self).syntax_name@ == old(self).syntax_name@,
            final(self).consumed@ == old(self).consumed@,
    {
        self.theme = theme.theme;
        self.theme_name = Ghost(theme.name@);
    }

    /// Relies on syntect's `ParseState::parse_line`, `Highlighter::new` and
    /// `HighlightIterator`: parsing is a pure function of the state and the
    /// line; the iterator splits the line into styled spans in document
    /// order, and the concatenation of the span texts is the line itself.
    /// With the built-in assets the states are functions of the ghost trace,
    /// so the spans bear the name `hl_spans` over it.
    #[verifier::external_body]
    pub fn highlight_and_advance_line(&mut self, line: &str) -> (r: Vec<(SpanStyle, String)>)
        ensures
            spans_view(r@) == hl_spans(
                old(self).syntax_name@,
                old(self).consumed@,
                old(self).theme_name@,
                line.spec_bytes(),
            ),
            spans_bytes(spans_view(r@)) == line.spec_bytes(),
            final(self).theme_name@ == old(self).theme_name@,
            final(self).syntax_name@ == old(self).syntax_name@,
            final(self).consumed@ == old(self).consumed@.push(
                (old(self).theme_name@, line.spec_bytes()),
            ),
    {
        let ops = self.parse.parse_line(line, &self.set).unwrap_or_default();
        let highlighter = Highlighter::new(&self.theme);
        let iter = HighlightIterator::new(&mut self.hstate, &ops, line, &highlighter);
        iter.map(|(st, txt)| (style_of(st), txt.to_string())).collect()
    }

    /// Consume one line, updating the states without rendering it.
    pub fn advanced_line(&mut self, line: &str)
        ensures
            final(self).theme_name@ == old(self).theme_name@,
            final(self).syntax_name@ == old(self).syntax_name@,
            final(self).consumed@ == old(self).consumed@.push(
                (old(self).theme_name@, line.spec_bytes()),
            ),
    {
        let _ = self.highlight_and_advance_line(line);
    }
}

/// Relies on reading syntect's `Style` fields: copies the colours and the
/// font flags into the library's own span style.
#[verifier::external_body]
fn style_of(s: syntect::highlighting::Style) -> SpanStyle {
    SpanStyle {
        foreground: Color {
            r: s.foreground.r,
            g: s.foreground.g,
            b: s.foreground.b,
            a: s.foreground.a,
        },
        background: Color {
            r: s.background.r,
            g: s.background.g,
            b: s.background.b,
            a: s.background.a,
        },
        font_style: s.font_style.bits(),
    }
}

} // verus!
