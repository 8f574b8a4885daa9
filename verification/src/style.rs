//! The style table: one named style for each style definition.

use vstd::prelude::*;
use crate::font::{style_views, AssFont, AssStyle, FontVariant, StyleView};
use crate::text::{
    chars_of, rows, split_chars, split_on, string_of, strip_leading, texts, without_leading,
};

verus! {

/// The `k`-th of the fields of `record` that commas separate, counted from
/// zero; empty where the record has no such field.
pub open spec fn field(record: Seq<char>, k: int) -> Seq<char> {
    let fields = split_on(record, ',');
    if 0 <= k < fields.len() {
        fields[k]
    } else {
        Seq::empty()
    }
}

/// What a flag field says: off where the field is empty or ends in `0`, on
/// otherwise.
pub open spec fn flag(field: Seq<char>) -> bool {
    field.len() > 0 && field.last() != '0'
}

/// A style definition without the word that introduces it.
pub open spec fn style_record(line: Seq<char>) -> Seq<char> {
    strip_leading(line, "Style: "@)
}

/// The style that a style definition declares: its name is field 0, the
/// family field 1, the bold flag field 7 and the italic flag field 8.
pub open spec fn style_of(line: Seq<char>) -> StyleView {
    let record = style_record(line);
    StyleView {
        name: field(record, 0),
        font: FontVariant {
            family: field(record, 1),
            bold: flag(field(record, 7)),
            italic: flag(field(record, 8)),
        },
    }
}

/// The styles that the definitions `lines` declare, in their order.
pub open spec fn styles_of(lines: Seq<Seq<char>>) -> Seq<StyleView> {
    lines.map_values(|line: Seq<char>| style_of(line))
}

/// The `k`-th field of a record that was split into `fields`.
pub fn field_text(fields: &Vec<Vec<char>>, k: usize) -> (out: String)
    ensures
        out@ == (if k < fields.len() {
            fields@[k as int]@
        } else {
            Seq::<char>::empty()
        }),
{
    if k < fields.len() {
        string_of(&fields[k])
    } else {
        String::new()
    }
}

/// The flag that the `k`-th field of a record holds.
pub fn field_flag(fields: &Vec<Vec<char>>, k: usize) -> (on: bool)
    ensures
        on == flag(
            if k < fields.len() {
                fields@[k as int]@
            } else {
                Seq::<char>::empty()
            },
        ),
{
    if k < fields.len() {
        let f = &fields[k];
        let n = f.len();
        n > 0 && f[n - 1] != '0'
    } else {
        false
    }
}

/// Reads one style definition. No line is refused: a field that the line
/// lacks leaves its part of the style empty or off.
pub fn parse_style(line: &str) -> (style: AssStyle)
    ensures
        style@ == style_of(line@),
        style.font.path@ == Seq::<char>::empty(),
{
    let chars = chars_of(line);
    let intro = chars_of("Style: ");
    let record = without_leading(&chars, &intro);
    let fields = split_chars(&record, ',');
    proof {
        assert(rows(fields@) == split_on(record@, ','));
        assert forall|k: int| 0 <= k < fields.len() implies fields@[k]@ == split_on(
            record@,
            ',',
        )[k] by {
            assert(rows(fields@)[k] == fields@[k]@);
        }
    }
    let name = field_text(&fields, 0);
    let family = field_text(&fields, 1);
    let bold = field_flag(&fields, 7);
    let italic = field_flag(&fields, 8);
    AssStyle { name, font: AssFont::new(family, bold, italic) }
}

/// Builds the style table from the style definitions, one style for each
/// line and in the order of the lines.
pub fn build_styles(style_lines: &Vec<String>) -> (styles: Vec<AssStyle>)
    ensures
        style_views(styles@) == styles_of(texts(style_lines@)),
        forall|i: int|
            0 <= i < styles.len() ==> (#[trigger] styles@[i]).font.path@ == Seq::<char>::empty(),
{
    let mut styles: Vec<AssStyle> = Vec::new();
    let mut i: usize = 0;
    while i < style_lines.len()
        invariant
            i <= style_lines.len(),
            style_views(styles@) == styles_of(texts(style_lines@.take(i as int))),
            forall|j: int|
                0 <= j < styles.len() ==> (#[trigger] styles@[j]).font.path@ == Seq::<
                    char,
                >::empty(),
        decreases style_lines.len() - i,
    {
        let style = parse_style(style_lines[i].as_str());
        proof {
            let before = style_lines@.take(i as int);
            assert(style_lines@.take(i + 1) == before.push(style_lines@[i as int]));
            assert(texts(before.push(style_lines@[i as int])) == texts(before).push(
                style_lines@[i as int]@,
            ));
            assert(styles_of(texts(before).push(style_lines@[i as int]@)) == styles_of(
                texts(before),
            ).push(style_of(style_lines@[i as int]@)));
            assert(style_views(styles@.push(style)) == style_views(styles@).push(style@));
        }
        styles.push(style);
        i += 1;
    }
    proof {
        assert(style_lines@.take(style_lines.len() as int) == style_lines@);
    }
    styles
}

} // verus!
