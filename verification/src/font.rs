//! Font variants, styles, and the font set of one script.

use vstd::prelude::*;
use vstd::std_specs::cmp::PartialEqSpecImpl;

verus! {

/// What a font is asked for by: its family name and its two flags.
pub struct FontVariant {
    pub family: Seq<char>,
    pub bold: bool,
    pub italic: bool,
}

/// A named style as contracts see it.
pub struct StyleView {
    pub name: Seq<char>,
    pub font: FontVariant,
}

/// The variant that stands where nothing was declared: no family, no flag.
pub open spec fn plain_variant() -> FontVariant {
    FontVariant { family: Seq::empty(), bold: false, italic: false }
}

/// A font variant, and the place where the font was found once somebody has
/// looked for it. Two fonts are equal when their variants are.
#[derive(Debug)]
pub struct AssFont {
    pub facename: String,
    pub bold: bool,
    pub italic: bool,
    pub path: String,
}

impl View for AssFont {
    type V = FontVariant;

    open spec fn view(&self) -> FontVariant {
        FontVariant { family: self.facename@, bold: self.bold, italic: self.italic }
    }
}

impl AssFont {
    /// A font of the given variant that nobody has looked for yet.
    pub fn new(facename: String, bold: bool, italic: bool) -> (font: AssFont)
        ensures
            font@ == (FontVariant { family: facename@, bold, italic }),
            font.path@ == Seq::<char>::empty(),
    {
        AssFont { facename, bold, italic, path: String::new() }
    }
}

impl Clone for AssFont {
    fn clone(&self) -> (copy: AssFont)
        ensures
            copy == *self,
    {
        AssFont {
            facename: self.facename.clone(),
            bold: self.bold,
            italic: self.italic,
            path: self.path.clone(),
        }
    }
}

impl PartialEq for AssFont {
    fn eq(&self, other: &AssFont) -> (same: bool) {
        self.facename == other.facename && self.bold == other.bold && self.italic == other.italic
    }
}

impl PartialEqSpecImpl for AssFont {
    open spec fn obeys_eq_spec() -> bool {
        true
    }

    open spec fn eq_spec(&self, other: &AssFont) -> bool {
        self@ == other@
    }
}

impl Eq for AssFont {

}

/// A style of the script: its name and the font variant it declares.
#[derive(Debug)]
pub struct AssStyle {
    pub name: String,
    pub font: AssFont,
}

impl View for AssStyle {
    type V = StyleView;

    open spec fn view(&self) -> StyleView {
        StyleView { name: self.name@, font: self.font@ }
    }
}

impl Clone for AssStyle {
    fn clone(&self) -> (copy: AssStyle)
        ensures
            copy == *self,
    {
        AssStyle { name: self.name.clone(), font: self.font.clone() }
    }
}

impl PartialEq for AssStyle {
    fn eq(&self, other: &AssStyle) -> (same: bool) {
        self.name == other.name && self.font == other.font
    }
}

impl PartialEqSpecImpl for AssStyle {
    open spec fn obeys_eq_spec() -> bool {
        true
    }

    open spec fn eq_spec(&self, other: &AssStyle) -> bool {
        self@ == other@
    }
}

impl Eq for AssStyle {

}

/// The variants of a sequence of fonts, in order.
pub open spec fn variants(fonts: Seq<AssFont>) -> Seq<FontVariant> {
    fonts.map_values(|f: AssFont| f@)
}

/// The styles of a table as contracts see them, in order.
pub open spec fn style_views(styles: Seq<AssStyle>) -> Seq<StyleView> {
    styles.map_values(|s: AssStyle| s@)
}

/// No font of `fonts` has been looked for yet.
pub open spec fn unlocated(fonts: Seq<AssFont>) -> bool {
    forall|i: int| 0 <= i < fonts.len() ==> (#[trigger] fonts[i]).path@ == Seq::<char>::empty()
}

/// The fonts that one script needs, each variant once, in the order in which
/// the script first uses them.
#[derive(Debug)]
pub struct AssFile {
    pub fonts: Vec<AssFont>,
}

impl View for AssFile {
    type V = Seq<FontVariant>;

    open spec fn view(&self) -> Seq<FontVariant> {
        variants(self.fonts@)
    }
}

impl AssFile {
    /// What holds of every font set that resolution gives: no variant stands
    /// in it twice.
    pub open spec fn well_formed(&self) -> bool {
        self@.no_duplicates()
    }
}

impl Clone for AssFile {
    fn clone(&self) -> (copy: AssFile)
        ensures
            copy.fonts@ == self.fonts@,
            self.well_formed() ==> copy.well_formed(),
    {
        let mut fonts: Vec<AssFont> = Vec::new();
        let mut i: usize = 0;
        while i < self.fonts.len()
            invariant
                i <= self.fonts.len(),
                fonts@ == self.fonts@.take(i as int),
            decreases self.fonts.len() - i,
        {
            fonts.push(self.fonts[i].clone());
            i += 1;
        }
        proof {
            assert(self.fonts@.take(self.fonts.len() as int) == self.fonts@);
        }
        AssFile { fonts }
    }
}

} // verus!
