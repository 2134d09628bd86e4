use vstd::prelude::*;

verus! {

#[derive(Debug, Clone, Copy, PartialEq, Eq, Structural)]
pub enum TextAnchor {
    Start,
    Middle,
    End,
}

#[derive(Debug, Clone, Copy, PartialEq, Eq, Structural)]
pub enum DominantBaseline {
    Middle,
    Hanging,
    Ideographic,
}

/// The font role a piece of text renders in.
#[derive(Debug, Clone, Copy, PartialEq, Eq, Default, Structural)]
pub enum FontFamily {
    Monospace,
    /// The directive line, part legend and footer; the role of any kind of text
    /// without a role of its own.
    #[default]
    SansSerif,
    /// The title, subtitle, author and lyrics.
    Serif,
}

/// The font role of each glyph-measured kind of text: note digits, chord symbols and
/// note dashes.
#[derive(Debug, Clone, Copy, PartialEq, Eq, Structural)]
pub struct GlyphFontFamilies {
    pub notes: FontFamily,
    pub chords: FontFamily,
    pub note_dash: FontFamily,
}

impl Default for GlyphFontFamilies {
    /// Monospace for all three kinds.
    fn default() -> (r: Self)
        ensures
            r == (GlyphFontFamilies {
                notes: FontFamily::Monospace,
                chords: FontFamily::Monospace,
                note_dash: FontFamily::Monospace,
            }),
    {
        GlyphFontFamilies {
            notes: FontFamily::Monospace,
            chords: FontFamily::Monospace,
            note_dash: FontFamily::Monospace,
        }
    }
}

#[derive(Debug, Clone, Copy, PartialEq, Eq, Structural)]
pub enum FontWeight {
    Normal,
    Bold,
}

} // verus!
