//! Font resolution: from the style table and the event lines to the fonts
//! that the script needs.

use vstd::prelude::*;
use crate::error::Error;
use crate::font::{
    plain_variant, style_views, unlocated, variants, AssFile, AssFont, AssStyle, FontVariant,
    StyleView,
};
use crate::section::{event_lines, has_styles, style_lines};
use crate::style::{build_styles, field, styles_of};
use crate::tags::{directive_views, directives_of, tokenize, Directive, OverrideDirective};
use crate::text::{chars_of, rows, split_chars, split_on, texts};

verus! {

/// The variant after one directive. A flag directive sets its flag, a font
/// directive sets the family, and a directive that is not recognised changes
/// nothing.
pub open spec fn apply(state: FontVariant, d: Directive) -> FontVariant {
    match d {
        Directive::BoldOn => FontVariant { bold: true, ..state },
        Directive::BoldOff => FontVariant { bold: false, ..state },
        Directive::ItalicOn => FontVariant { italic: true, ..state },
        Directive::ItalicOff => FontVariant { italic: false, ..state },
        Directive::SetFont(name) => FontVariant { family: name, ..state },
        Directive::Unrecognized(_) => state,
    }
}

/// The variant after the directives `ds`, applied from left to right.
pub open spec fn apply_all(state: FontVariant, ds: Seq<Directive>) -> FontVariant
    decreases ds.len(),
{
    if ds.len() == 0 {
        state
    } else {
        apply(apply_all(state, ds.drop_last()), ds.last())
    }
}

/// The font of the style called `name`: that of the last style of the table
/// that has this name, if there is one.
pub open spec fn find_style(table: Seq<StyleView>, name: Seq<char>) -> Option<FontVariant>
    decreases table.len(),
{
    if table.len() == 0 {
        None
    } else if table.last().name == name {
        Some(table.last().font)
    } else {
        find_style(table.drop_last(), name)
    }
}

/// The variant that an event starts from when it names the style `name`: the
/// font of that style; where the table has no such style, the font of its
/// first style; where the table is empty, the plain variant.
pub open spec fn seed(table: Seq<StyleView>, name: Seq<char>) -> FontVariant {
    match find_style(table, name) {
        Some(font) => font,
        None => if table.len() > 0 {
            table[0].font
        } else {
            plain_variant()
        },
    }
}

/// The name of the style that an event line refers to: its fourth field.
pub open spec fn style_name(line: Seq<char>) -> Seq<char> {
    field(line, 3)
}

/// The one variant that an event line is set in: that of its style, changed
/// by every directive of the line in turn.
pub open spec fn event_variant(table: Seq<StyleView>, line: Seq<char>) -> FontVariant {
    apply_all(seed(table, style_name(line)), directives_of(line))
}

/// `fonts` with `v` put at its end unless it holds `v` already.
pub open spec fn add_unique(fonts: Seq<FontVariant>, v: FontVariant) -> Seq<FontVariant> {
    if fonts.contains(v) {
        fonts
    } else {
        fonts.push(v)
    }
}

/// The variants of the event lines `events`, each once, in the order in
/// which the lines first use them.
pub open spec fn required_fonts(table: Seq<StyleView>, events: Seq<Seq<char>>) -> Seq<
    FontVariant,
>
    decreases events.len(),
{
    if events.len() == 0 {
        Seq::empty()
    } else {
        add_unique(
            required_fonts(table, events.drop_last()),
            event_variant(table, events.last()),
        )
    }
}

/// The fonts that the script `text` needs.
pub open spec fn fonts_of_script(text: Seq<char>) -> Seq<FontVariant> {
    required_fonts(styles_of(style_lines(text)), event_lines(text))
}

/// What `get_fonts` owes for the script `text`: the error of the first stage
/// that fails, or else the fonts of the script, none of them looked for.
pub open spec fn resolves_to(text: Seq<char>, outcome: Result<AssFile, Error>) -> bool {
    match outcome {
        Ok(file) => {
            &&& has_styles(text)
            &&& event_lines(text).len() > 0
            &&& file@ == fonts_of_script(text)
            &&& file.well_formed()
            &&& unlocated(file.fonts@)
        },
        Err(e) => if !has_styles(text) {
            e is MissingStylesInfo
        } else {
            event_lines(text).len() == 0 && e is MissingEvents
        },
    }
}

/// Applies one directive to the working state of an event line.
pub fn apply_directive(
    facename: &mut String,
    bold: &mut bool,
    italic: &mut bool,
    d: &OverrideDirective,
)
    ensures
        (FontVariant { family: final(facename)@, bold: *final(bold), italic: *final(italic) })
            == apply(
            FontVariant { family: old(facename)@, bold: *old(bold), italic: *old(italic) },
            d@,
        ),
{
    match d {
        OverrideDirective::BoldOn => {
            *bold = true;
        },
        OverrideDirective::BoldOff => {
            *bold = false;
        },
        OverrideDirective::ItalicOn => {
            *italic = true;
        },
        OverrideDirective::ItalicOff => {
            *italic = false;
        },
        OverrideDirective::SetFont(name) => {
            *facename = name.clone();
        },
        OverrideDirective::Unrecognized(_) => {},
    }
}

/// The font that an event starts from when it names the style `name`.
pub fn seed_font(styles: &Vec<AssStyle>, name: &String) -> (font: AssFont)
    ensures
        font@ == seed(style_views(styles@), name@),
        font.path@ == Seq::<char>::empty(),
{
    let ghost table = style_views(styles@);
    let mut i: usize = styles.len();
    proof {
        assert(table.take(i as int) == table);
    }
    while i > 0
        invariant
            i <= styles.len(),
            table == style_views(styles@),
            find_style(table, name@) == find_style(table.take(i as int), name@),
        decreases i,
    {
        let style = &styles[i - 1];
        proof {
            let upto = table.take(i as int);
            assert(upto.last() == style@);
            assert(upto.drop_last() == table.take(i - 1));
        }
        if style.name == *name {
            return AssFont::new(style.font.facename.clone(), style.font.bold, style.font.italic);
        }
        i -= 1;
    }
    if styles.len() > 0 {
        let first = &styles[0];
        proof {
            assert(table[0] == first@);
        }
        AssFont::new(first.font.facename.clone(), first.font.bold, first.font.italic)
    } else {
        AssFont::new(String::new(), false, false)
    }
}

/// The name of the style that the event line `line` refers to.
pub fn event_style_name(line: &str) -> (name: String)
    ensures
        name@ == style_name(line@),
{
    let chars = chars_of(line);
    let fields = split_chars(&chars, ',');
    proof {
        assert(rows(fields@) == split_on(chars@, ','));
        if 3 < fields.len() {
            assert(rows(fields@)[3] == fields@[3]@);
        }
    }
    crate::style::field_text(&fields, 3)
}

/// The font that the event line `line` is set in.
pub fn resolve_event(styles: &Vec<AssStyle>, line: &str) -> (font: AssFont)
    ensures
        font@ == event_variant(style_views(styles@), line@),
        font.path@ == Seq::<char>::empty(),
{
    let name = event_style_name(line);
    let start = seed_font(styles, &name);
    let mut facename = start.facename;
    let mut bold = start.bold;
    let mut italic = start.italic;
    match tokenize(line) {
        None => {
            proof {
                assert(directives_of(line@).len() == 0);
            }
        },
        Some(ds) => {
            let ghost first = start@;
            let ghost all = directive_views(ds@);
            let mut i: usize = 0;
            while i < ds.len()
                invariant
                    i <= ds.len(),
                    all == directive_views(ds@),
                    (FontVariant { family: facename@, bold, italic }) == apply_all(
                        first,
                        all.take(i as int),
                    ),
                decreases ds.len() - i,
            {
                proof {
                    let upto = all.take(i + 1);
                    assert(upto.drop_last() == all.take(i as int));
                    assert(upto.last() == ds@[i as int]@);
                }
                apply_directive(&mut facename, &mut bold, &mut italic, &ds[i]);
                i += 1;
            }
            proof {
                assert(all.take(ds.len() as int) == all);
            }
        },
    }
    AssFont::new(facename, bold, italic)
}

/// Is a font of the variant of `font` among `fonts`?
pub fn holds_font(fonts: &Vec<AssFont>, font: &AssFont) -> (b: bool)
    ensures
        b == variants(fonts@).contains(font@),
{
    let mut i: usize = 0;
    while i < fonts.len()
        invariant
            i <= fonts.len(),
            forall|j: int| 0 <= j < i ==> variants(fonts@)[j] != font@,
        decreases fonts.len() - i,
    {
        if fonts[i] == *font {
            proof {
                assert(variants(fonts@)[i as int] == font@);
            }
            return true;
        }
        i += 1;
    }
    false
}

/// Resolves every event line against the style table and collects the fonts,
/// each variant once and in the order of first use. Fails where that leaves
/// no font, which is where there is no event line.
pub fn resolve(styles: &Vec<AssStyle>, events: &Vec<String>) -> (found: Result<
    Vec<AssFont>,
    Error,
>)
    ensures
        match found {
            Ok(fonts) => {
                &&& events.len() > 0
                &&& variants(fonts@) == required_fonts(style_views(styles@), texts(events@))
                &&& variants(fonts@).no_duplicates()
                &&& unlocated(fonts@)
            },
            Err(e) => events.len() == 0 && e is FailedParsingFonts,
        },
{
    let ghost table = style_views(styles@);
    let mut fonts: Vec<AssFont> = Vec::new();
    let mut i: usize = 0;
    while i < events.len()
        invariant
            i <= events.len(),
            table == style_views(styles@),
            variants(fonts@) == required_fonts(table, texts(events@).take(i as int)),
            variants(fonts@).no_duplicates(),
            unlocated(fonts@),
            i > 0 ==> fonts.len() > 0,
        decreases events.len() - i,
    {
        let font = resolve_event(styles, events[i].as_str());
        proof {
            let upto = texts(events@).take(i + 1);
            assert(upto.drop_last() == texts(events@).take(i as int));
            assert(upto.last() == events@[i as int]@);
        }
        if !holds_font(&fonts, &font) {
            proof {
                assert(variants(fonts@.push(font)) == variants(fonts@).push(font@));
            }
            fonts.push(font);
        }
        i += 1;
    }
    proof {
        assert(texts(events@).take(events.len() as int) == texts(events@));
    }
    if fonts.len() > 0 {
        Ok(fonts)
    } else {
        Err(Error::FailedParsingFonts)
    }
}

impl AssFile {
    /// Builds the style table from the style definitions and resolves the
    /// event lines against it.
    pub fn trim_to_fonts(style_lines: Vec<String>, events: Vec<String>) -> (found: Result<
        Vec<AssFont>,
        Error,
    >)
        ensures
            match found {
                Ok(fonts) => {
                    &&& events.len() > 0
                    &&& variants(fonts@) == required_fonts(
                        styles_of(texts(style_lines@)),
                        texts(events@),
                    )
                    &&& variants(fonts@).no_duplicates()
                    &&& unlocated(fonts@)
                },
                Err(e) => events.len() == 0 && e is FailedParsingFonts,
            },
    {
        let styles = build_styles(&style_lines);
        resolve(&styles, &events)
    }

    /// The fonts that the script `f` needs. Fails where the script has no
    /// style section, and where it has one but no event line.
    pub fn get_fonts(f: String) -> (outcome: Result<AssFile, Error>)
        ensures
            resolves_to(f@, outcome),
    {
        let styles = match Self::get_styles(f.as_str()) {
            Ok(lines) => lines,
            Err(e) => {
                return Err(e);
            },
        };
        let events = match Self::get_event_lines(f.as_str()) {
            Ok(lines) => lines,
            Err(e) => {
                return Err(e);
            },
        };
        match Self::trim_to_fonts(styles, events) {
            Ok(fonts) => Ok(AssFile { fonts }),
            Err(e) => Err(e),
        }
    }
}

} // verus!
