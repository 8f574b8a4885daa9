//! What holds of every script: facts about resolution that follow from its
//! definition, each one proved.

use vstd::prelude::*;
use crate::error::Error;
use crate::font::{AssFile, FontVariant, StyleView};
use crate::resolve::{
    apply, apply_all, event_variant, find_style, required_fonts, resolves_to, seed, style_name,
};
use crate::section::{is_header, is_kept, section_lines};
use crate::tags::{blocks_of, directives_of, has_block, Directive};
use crate::text::{index_of, lemma_index_of_bounds};

verus! {

/// The variants of the event lines, line by line.
pub open spec fn event_variants(table: Seq<StyleView>, events: Seq<Seq<char>>) -> Seq<
    FontVariant,
> {
    events.map_values(|line: Seq<char>| event_variant(table, line))
}

/// Among `uses`, `a` is used before `b` is used for the first time.
pub open spec fn used_before(uses: Seq<FontVariant>, a: FontVariant, b: FontVariant) -> bool {
    exists|i: int|
        0 <= i < uses.len() && #[trigger] uses[i] == a && forall|j: int|
            0 <= j <= i ==> #[trigger] uses[j] != b
}

/// A directive that sets or clears the bold flag.
pub open spec fn writes_bold(d: Directive) -> bool {
    d is BoldOn || d is BoldOff
}

/// A directive that sets or clears the italic flag.
pub open spec fn writes_italic(d: Directive) -> bool {
    d is ItalicOn || d is ItalicOff
}

/// Two outcomes say the same: the same fonts in the same order, or the same
/// kind of failure.
pub open spec fn same_outcome(a: Result<AssFile, Error>, b: Result<AssFile, Error>) -> bool {
    match (a, b) {
        (Ok(x), Ok(y)) => x@ == y@,
        (Err(x), Err(y)) => (x is MissingStylesInfo <==> y is MissingStylesInfo) && (x
            is MissingEvents <==> y is MissingEvents),
        _ => false,
    }
}

/// Resolution is determined by the text: whatever two runs on one script
/// return, they return the same fonts in the same order, or fail alike.
pub proof fn lemma_resolution_is_determined(
    text: Seq<char>,
    first: Result<AssFile, Error>,
    second: Result<AssFile, Error>,
)
    requires
        resolves_to(text, first),
        resolves_to(text, second),
    ensures
        same_outcome(first, second),
{
}

/// A font set holds exactly the variants that some event line uses.
pub proof fn lemma_fonts_are_the_used(table: Seq<StyleView>, events: Seq<Seq<char>>)
    ensures
        forall|v: FontVariant|
            required_fonts(table, events).contains(v) <==> event_variants(table, events).contains(
                v,
            ),
    decreases events.len(),
{
    let out = required_fonts(table, events);
    let uses = event_variants(table, events);
    if events.len() == 0 {
        assert forall|v: FontVariant| out.contains(v) <==> uses.contains(v) by {
            if out.contains(v) {
                let k = choose|k: int| 0 <= k < out.len() && out[k] == v;
            }
            if uses.contains(v) {
                let k = choose|k: int| 0 <= k < uses.len() && uses[k] == v;
            }
        }
    } else {
        let before = events.drop_last();
        let earlier = required_fonts(table, before);
        let used = event_variants(table, before);
        let last = event_variant(table, events.last());
        lemma_fonts_are_the_used(table, before);
        assert(uses == used.push(last));
        assert forall|v: FontVariant| out.contains(v) <==> uses.contains(v) by {
            if out.contains(v) {
                let k = choose|k: int| 0 <= k < out.len() && out[k] == v;
                if k < earlier.len() {
                    assert(earlier[k] == v);
                    assert(earlier.contains(v));
                    let i = choose|i: int| 0 <= i < used.len() && used[i] == v;
                    assert(uses[i] == v);
                } else {
                    assert(uses[uses.len() - 1] == v);
                }
            }
            if uses.contains(v) {
                let i = choose|i: int| 0 <= i < uses.len() && uses[i] == v;
                if i < used.len() {
                    assert(used[i] == v);
                    assert(used.contains(v));
                    let k = choose|k: int| 0 <= k < earlier.len() && earlier[k] == v;
                    assert(out[k] == v);
                } else if earlier.contains(v) {
                    let k = choose|k: int| 0 <= k < earlier.len() && earlier[k] == v;
                    assert(out[k] == v);
                } else {
                    assert(out[out.len() - 1] == v);
                }
            }
        }
    }
}

/// No variant stands twice in a font set.
pub proof fn lemma_fonts_are_unique(table: Seq<StyleView>, events: Seq<Seq<char>>)
    ensures
        required_fonts(table, events).no_duplicates(),
    decreases events.len(),
{
    if events.len() > 0 {
        lemma_fonts_are_unique(table, events.drop_last());
    }
}

/// A font set keeps the order of first use: of two of its variants, the one
/// that stands first is used by some event line before any line uses the
/// other.
pub proof fn lemma_fonts_keep_first_use_order(
    table: Seq<StyleView>,
    events: Seq<Seq<char>>,
    x: int,
    y: int,
)
    requires
        0 <= x < y < required_fonts(table, events).len(),
    ensures
        used_before(
            event_variants(table, events),
            required_fonts(table, events)[x],
            required_fonts(table, events)[y],
        ),
    decreases events.len(),
{
    let out = required_fonts(table, events);
    let uses = event_variants(table, events);
    if events.len() > 0 {
        let before = events.drop_last();
        let earlier = required_fonts(table, before);
        let used = event_variants(table, before);
        let last = event_variant(table, events.last());
        assert(uses == used.push(last));
        if y < earlier.len() {
            lemma_fonts_keep_first_use_order(table, before, x, y);
            let i = choose|i: int|
                0 <= i < used.len() && #[trigger] used[i] == earlier[x] && forall|j: int|
                    0 <= j <= i ==> #[trigger] used[j] != earlier[y];
            assert(uses[i] == out[x]);
            assert forall|j: int| 0 <= j <= i implies #[trigger] uses[j] != out[y] by {
                assert(uses[j] == used[j]);
            }
        } else {
            lemma_fonts_are_the_used(table, before);
            assert(out[y] == last);
            assert(!earlier.contains(last));
            assert(earlier[x] == out[x]);
            assert(earlier.contains(out[x]));
            assert(used.contains(out[x]));
            let i = choose|i: int| 0 <= i < used.len() && used[i] == out[x];
            assert(uses[i] == out[x]);
            assert forall|j: int| 0 <= j <= i implies #[trigger] uses[j] != out[y] by {
                if uses[j] == last {
                    assert(used[j] == last);
                    assert(used.contains(last));
                }
            }
        }
    }
}

/// A line without a `{` holds no override block.
pub proof fn lemma_no_brace_no_block(line: Seq<char>)
    requires
        !line.contains('{'),
    ensures
        !has_block(line),
{
    lemma_index_of_bounds(line, '{');
    let open = index_of(line, '{');
    if open < line.len() {
        assert(line[open] == '{');
    }
}

/// An event line without an override block is set in the font of the style
/// it refers to, unchanged.
pub proof fn lemma_plain_line_keeps_style(table: Seq<StyleView>, line: Seq<char>)
    requires
        !has_block(line),
    ensures
        event_variant(table, line) == seed(table, style_name(line)),
        find_style(table, style_name(line)) matches Some(font) ==> event_variant(table, line)
            == font,
{
    assert(blocks_of(line).len() == 0);
    assert(directives_of(line).len() == 0);
}

/// Where the table holds a style, the font that an event starts from is the
/// font of one of its styles, whatever style the event names.
pub proof fn lemma_seed_is_declared(table: Seq<StyleView>, name: Seq<char>)
    requires
        table.len() > 0,
    ensures
        exists|i: int| 0 <= i < table.len() && seed(table, name) == (#[trigger] table[i]).font,
    decreases table.len(),
{
    if table.last().name == name {
        assert(seed(table, name) == table[table.len() - 1].font);
    } else if find_style(table, name) is None {
        assert(seed(table, name) == table[0].font);
    } else {
        let before = table.drop_last();
        assert(before.len() > 0);
        lemma_seed_is_declared(before, name);
        let i = choose|i: int|
            0 <= i < before.len() && seed(before, name) == (#[trigger] before[i]).font;
        assert(find_style(before, name) == find_style(table, name));
        assert(seed(table, name) == table[i].font);
    }
}

/// An event line without an override block, resolved against a table that
/// holds a style, is set in the font of one of the styles of the table.
pub proof fn lemma_plain_line_is_set_in_a_declared_font(table: Seq<StyleView>, line: Seq<char>)
    requires
        !has_block(line),
        table.len() > 0,
    ensures
        exists|i: int|
            0 <= i < table.len() && event_variant(table, line) == (#[trigger] table[i]).font,
{
    lemma_plain_line_keeps_style(table, line);
    lemma_seed_is_declared(table, style_name(line));
}

/// Applying two runs of directives one after the other is applying their
/// concatenation.
pub proof fn lemma_apply_all_concat(state: FontVariant, a: Seq<Directive>, b: Seq<Directive>)
    ensures
        apply_all(state, a + b) == apply_all(apply_all(state, a), b),
    decreases b.len(),
{
    if b.len() == 0 {
        assert(a + b == a);
    } else {
        lemma_apply_all_concat(state, a, b.drop_last());
        assert((a + b).drop_last() == a + b.drop_last());
        assert((a + b).last() == b.last());
    }
}

/// The last directive that writes the bold flag decides it.
pub proof fn lemma_last_bold_write_wins(state: FontVariant, ds: Seq<Directive>, k: int)
    requires
        0 <= k < ds.len(),
        writes_bold(ds[k]),
        forall|j: int| k < j < ds.len() ==> !writes_bold(#[trigger] ds[j]),
    ensures
        apply_all(state, ds).bold == (ds[k] is BoldOn),
    decreases ds.len(),
{
    if k < ds.len() - 1 {
        let init = ds.drop_last();
        assert(init[k] == ds[k]);
        assert forall|j: int| k < j < init.len() implies !writes_bold(#[trigger] init[j]) by {
            assert(init[j] == ds[j]);
        }
        lemma_last_bold_write_wins(state, init, k);
        assert(!writes_bold(ds[ds.len() - 1]));
    }
}

/// The last directive that writes the italic flag decides it.
pub proof fn lemma_last_italic_write_wins(state: FontVariant, ds: Seq<Directive>, k: int)
    requires
        0 <= k < ds.len(),
        writes_italic(ds[k]),
        forall|j: int| k < j < ds.len() ==> !writes_italic(#[trigger] ds[j]),
    ensures
        apply_all(state, ds).italic == (ds[k] is ItalicOn),
    decreases ds.len(),
{
    if k < ds.len() - 1 {
        let init = ds.drop_last();
        assert(init[k] == ds[k]);
        assert forall|j: int| k < j < init.len() implies !writes_italic(#[trigger] init[j]) by {
            assert(init[j] == ds[j]);
        }
        lemma_last_italic_write_wins(state, init, k);
        assert(!writes_italic(ds[ds.len() - 1]));
    }
}

/// The last font directive decides the family.
pub proof fn lemma_last_font_write_wins(state: FontVariant, ds: Seq<Directive>, k: int)
    requires
        0 <= k < ds.len(),
        ds[k] is SetFont,
        forall|j: int| k < j < ds.len() ==> !(#[trigger] ds[j] is SetFont),
    ensures
        ds[k] matches Directive::SetFont(name) && apply_all(state, ds).family == name,
    decreases ds.len(),
{
    if k < ds.len() - 1 {
        let init = ds.drop_last();
        assert(init[k] == ds[k]);
        assert forall|j: int| k < j < init.len() implies !(#[trigger] init[j] is SetFont) by {
            assert(init[j] == ds[j]);
        }
        lemma_last_font_write_wins(state, init, k);
        assert(!(ds[ds.len() - 1] is SetFont));
    }
}

/// What no directive writes stays as the style has it.
pub proof fn lemma_unwritten_parts_stay(state: FontVariant, ds: Seq<Directive>)
    ensures
        (forall|j: int| 0 <= j < ds.len() ==> !writes_bold(#[trigger] ds[j])) ==> apply_all(
            state,
            ds,
        ).bold == state.bold,
        (forall|j: int| 0 <= j < ds.len() ==> !writes_italic(#[trigger] ds[j])) ==> apply_all(
            state,
            ds,
        ).italic == state.italic,
        (forall|j: int| 0 <= j < ds.len() ==> !(#[trigger] ds[j] is SetFont)) ==> apply_all(
            state,
            ds,
        ).family == state.family,
    decreases ds.len(),
{
    if ds.len() > 0 {
        let init = ds.drop_last();
        lemma_unwritten_parts_stay(state, init);
        if forall|j: int| 0 <= j < ds.len() ==> !writes_bold(#[trigger] ds[j]) {
            assert forall|j: int| 0 <= j < init.len() implies !writes_bold(#[trigger] init[j]) by {
                assert(init[j] == ds[j]);
            }
            assert(!writes_bold(ds[ds.len() - 1]));
        }
        if forall|j: int| 0 <= j < ds.len() ==> !writes_italic(#[trigger] ds[j]) {
            assert forall|j: int| 0 <= j < init.len() implies !writes_italic(
                #[trigger] init[j],
            ) by {
                assert(init[j] == ds[j]);
            }
            assert(!writes_italic(ds[ds.len() - 1]));
        }
        if forall|j: int| 0 <= j < ds.len() ==> !(#[trigger] ds[j] is SetFont) {
            assert forall|j: int| 0 <= j < init.len() implies !(#[trigger] init[j] is SetFont) by {
                assert(init[j] == ds[j]);
            }
            assert(!(ds[ds.len() - 1] is SetFont));
        }
    }
}

/// A directive that is not recognised changes nothing, wherever it stands
/// among the others.
pub proof fn lemma_unrecognized_is_ignored(
    state: FontVariant,
    before: Seq<Directive>,
    raw: Seq<char>,
    after: Seq<Directive>,
)
    ensures
        apply(state, Directive::Unrecognized(raw)) == state,
        apply_all(state, before + seq![Directive::Unrecognized(raw)] + after) == apply_all(
            state,
            before + after,
        ),
{
    let one = seq![Directive::Unrecognized(raw)];
    lemma_apply_all_concat(state, before + one, after);
    lemma_apply_all_concat(state, before, after);
    assert((before + one).drop_last() == before);
    assert((before + one).last() == Directive::Unrecognized(raw));
}

/// Lines of which none counts give no line of any section.
pub proof fn lemma_nothing_kept_nothing_found(
    lines: Seq<Seq<char>>,
    marker: Seq<char>,
    skip_comments: bool,
)
    requires
        forall|i: int|
            0 <= i < lines.len() ==> is_header(#[trigger] lines[i]) || !is_kept(
                lines[i],
                skip_comments,
            ),
    ensures
        section_lines(lines, marker, skip_comments).len() == 0,
    decreases lines.len(),
{
    if lines.len() > 0 {
        let before = lines.drop_last();
        assert forall|i: int| 0 <= i < before.len() implies is_header(#[trigger] before[i])
            || !is_kept(before[i], skip_comments) by {
            assert(before[i] == lines[i]);
        }
        lemma_nothing_kept_nothing_found(before, marker, skip_comments);
        assert(lines.last() == lines[lines.len() - 1]);
    }
}

} // verus!
