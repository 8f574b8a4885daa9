//! What the font matcher is asked, and what becomes of its answer.

use vstd::prelude::*;
use crate::font::AssFont;
use crate::mux::not_found;
use crate::text::{
    chars_of, copy_range, find_char, lemma_index_of_bounds, lowercase, lowercased, replace_all,
    replace_chars, string_of,
};

verus! {

/// What the font matcher is asked for.
#[derive(Debug)]
pub struct FontQuery {
    /// The family in lowercase.
    pub family: String,
    /// The weight on the scale on which 400 is regular and 700 is bold.
    pub weight: i32,
    /// The slant: 0 for upright, 110 for the slanted face.
    pub slant: i32,
}

/// The family that is looked for: the name of the font, without the `@` that
/// marks a font for vertical writing.
pub open spec fn sought_name(facename: Seq<char>) -> Seq<char> {
    if facename.len() > 0 && facename[0] == '@' {
        facename.skip(1)
    } else {
        facename
    }
}

/// The weight that stands for the bold flag.
pub open spec fn weight_of(bold: bool) -> int {
    if bold {
        700
    } else {
        400
    }
}

/// The slant that stands for the italic flag.
pub open spec fn slant_of(italic: bool) -> int {
    if italic {
        110
    } else {
        0
    }
}

/// The path as the platform writes it: on Windows every `/` becomes a `\`,
/// and after that a `\` before a space is dropped.
pub open spec fn native_path(raw: Seq<char>, windows: bool) -> Seq<char> {
    if windows {
        replace_all(replace_all(raw, seq!['/'], seq!['\\']), seq!['\\', ' '], seq![' '])
    } else {
        raw
    }
}

/// A path that holds a space is put between quotation marks.
pub open spec fn quoted_if_spaced(path: Seq<char>) -> Seq<char> {
    if path.contains(' ') {
        seq!['"'] + path + seq!['"']
    } else {
        path
    }
}

/// The path that a font carries once the matcher has answered: the file it
/// found, written for the platform and for a command, or the words that say
/// that it found none.
pub open spec fn located_path(found: Option<Seq<char>>, windows: bool) -> Seq<char> {
    match found {
        Some(raw) => quoted_if_spaced(native_path(raw, windows)),
        None => not_found(),
    }
}

/// What to ask the font matcher for the font `font`, which has a name.
pub fn font_query(font: &AssFont) -> (query: FontQuery)
    requires
        font.facename@.len() > 0,
    ensures
        query.family@ == lowercase(sought_name(font.facename@)),
        query.weight == weight_of(font.bold),
        query.slant == slant_of(font.italic),
{
    let name = chars_of(font.facename.as_str());
    let sought = if name[0] == '@' {
        let rest = copy_range(&name, 1, name.len());
        proof {
            assert(name@.subrange(1, name.len() as int) == name@.skip(1));
        }
        string_of(&rest)
    } else {
        string_of(&name)
    };
    FontQuery {
        family: lowercased(sought.as_str()),
        weight: if font.bold {
            700
        } else {
            400
        },
        slant: if font.italic {
            110
        } else {
            0
        },
    }
}

/// The path `raw` as it is written for the platform and for a command.
pub fn shown_path(raw: &str, windows: bool) -> (out: String)
    ensures
        out@ == quoted_if_spaced(native_path(raw@, windows)),
{
    let v = chars_of(raw);
    let native = if windows {
        let mut slash: Vec<char> = Vec::new();
        slash.push('/');
        let mut backslash: Vec<char> = Vec::new();
        backslash.push('\\');
        let mut escaped: Vec<char> = Vec::new();
        escaped.push('\\');
        escaped.push(' ');
        let mut space: Vec<char> = Vec::new();
        space.push(' ');
        proof {
            assert(slash@ == seq!['/']);
            assert(backslash@ == seq!['\\']);
            assert(escaped@ == seq!['\\', ' ']);
            assert(space@ == seq![' ']);
        }
        let turned = replace_chars(&v, &slash, &backslash);
        replace_chars(&turned, &escaped, &space)
    } else {
        v
    };
    let at = find_char(&native, 0, ' ');
    proof {
        assert(native@.skip(0) == native@);
        lemma_index_of_bounds(native@, ' ');
        if at < native.len() {
            assert(native@[at as int] == ' ');
        }
    }
    if at < native.len() {
        let mut out = String::new();
        out.push('"');
        let mut i: usize = 0;
        while i < native.len()
            invariant
                i <= native.len(),
                out@ == seq!['"'] + native@.take(i as int),
            decreases native.len() - i,
        {
            proof {
                assert(native@.take(i + 1) == native@.take(i as int).push(native@[i as int]));
            }
            out.push(native[i]);
            i += 1;
        }
        proof {
            assert(native@.take(native.len() as int) == native@);
            assert((seq!['"'] + native@).push('"') == seq!['"'] + native@ + seq!['"']);
        }
        out.push('"');
        out
    } else {
        string_of(&native)
    }
}

/// The font `font` with the answer of the font matcher: the file that it
/// found for the font, or none.
pub fn with_location(font: &AssFont, found: Option<&str>, windows: bool) -> (out: AssFont)
    ensures
        out@ == font@,
        out.path@ == located_path(
            match found {
                Some(raw) => Some(raw@),
                None => None,
            },
            windows,
        ),
{
    let path = match found {
        Some(raw) => shown_path(raw, windows),
        None => "Nothing found.".to_owned(),
    };
    AssFont { facename: font.facename.clone(), bold: font.bold, italic: font.italic, path }
}

} // verus!
