//! Override blocks of an event line, and the directives they hold.

use vstd::prelude::*;
use crate::text::{
    chars_of, copy_range, find_char, index_of, lemma_non_empty_are_pieces,
    lemma_pieces_hold_no_separator, non_empty, rows, split_chars, split_on, starts_with,
    string_of, strings_of, texts,
};

verus! {

/// The override blocks of `line`, in order. A block opens at a `{` and runs
/// to the next `}`; its text is what stands between the two. A `{` that no
/// `}` follows opens no block, and a `}` outside a block means nothing.
pub open spec fn blocks_of(line: Seq<char>) -> Seq<Seq<char>>
    decreases line.len(),
{
    let open = index_of(line, '{');
    if 0 <= open < line.len() {
        let rest = line.skip(open + 1);
        let close = index_of(rest, '}');
        if 0 <= close < rest.len() {
            seq![rest.take(close)] + blocks_of(rest.skip(close + 1))
        } else {
            Seq::empty()
        }
    } else {
        Seq::empty()
    }
}

/// `line` holds an override block.
pub open spec fn has_block(line: Seq<char>) -> bool {
    blocks_of(line).len() > 0
}

/// The directives of one block as they are written: the pieces of the block
/// between its backslashes that are not empty, each with a backslash put in
/// front. A backslash that nothing follows starts no directive, and an empty
/// block holds none.
pub open spec fn block_tags(block: Seq<char>) -> Seq<Seq<char>> {
    non_empty(split_on(block, '\\')).map_values(|piece: Seq<char>| seq!['\\'] + piece)
}

/// The directives of several blocks, as if the blocks were one.
pub open spec fn tags_in(blocks: Seq<Seq<char>>) -> Seq<Seq<char>>
    decreases blocks.len(),
{
    if blocks.len() == 0 {
        Seq::empty()
    } else {
        tags_in(blocks.drop_last()) + block_tags(blocks.last())
    }
}

/// The directives of `line` as they are written, from left to right.
pub open spec fn tags_of(line: Seq<char>) -> Seq<Seq<char>> {
    tags_in(blocks_of(line))
}

/// What a directive asks for.
pub enum Directive {
    BoldOn,
    BoldOff,
    ItalicOn,
    ItalicOff,
    SetFont(Seq<char>),
    Unrecognized(Seq<char>),
}

/// What the written directive `tag` asks for. `\b1`, `\b0`, `\i1` and `\i0`
/// are recognised only as a whole; `\fn` is followed by the family name,
/// which is the rest of the directive; anything else is not recognised.
pub open spec fn classify(tag: Seq<char>) -> Directive {
    if tag == seq!['\\', 'b', '1'] {
        Directive::BoldOn
    } else if tag == seq!['\\', 'b', '0'] {
        Directive::BoldOff
    } else if tag == seq!['\\', 'i', '1'] {
        Directive::ItalicOn
    } else if tag == seq!['\\', 'i', '0'] {
        Directive::ItalicOff
    } else if starts_with(tag, seq!['\\', 'f', 'n']) {
        Directive::SetFont(tag.skip(3))
    } else {
        Directive::Unrecognized(tag)
    }
}

/// What the directives of `line` ask for, from left to right.
pub open spec fn directives_of(line: Seq<char>) -> Seq<Directive> {
    tags_of(line).map_values(|tag: Seq<char>| classify(tag))
}

/// A directive of an override block.
#[derive(Debug)]
pub enum OverrideDirective {
    BoldOn,
    BoldOff,
    ItalicOn,
    ItalicOff,
    /// Use the family of this name.
    SetFont(String),
    /// A directive that means nothing here, kept as it was written.
    Unrecognized(String),
}

impl View for OverrideDirective {
    type V = Directive;

    open spec fn view(&self) -> Directive {
        match self {
            OverrideDirective::BoldOn => Directive::BoldOn,
            OverrideDirective::BoldOff => Directive::BoldOff,
            OverrideDirective::ItalicOn => Directive::ItalicOn,
            OverrideDirective::ItalicOff => Directive::ItalicOff,
            OverrideDirective::SetFont(name) => Directive::SetFont(name@),
            OverrideDirective::Unrecognized(raw) => Directive::Unrecognized(raw@),
        }
    }
}

/// What the directives of `ds` ask for, in order.
pub open spec fn directive_views(ds: Seq<OverrideDirective>) -> Seq<Directive> {
    ds.map_values(|d: OverrideDirective| d@)
}

/// A directive as it is written begins with a backslash, holds no other, and
/// does not end there.
pub open spec fn is_written_directive(tag: Seq<char>) -> bool {
    &&& tag.len() >= 2
    &&& tag[0] == '\\'
    &&& forall|j: int| 1 <= j < tag.len() ==> tag[j] != '\\'
}

/// Every directive of a block begins with a backslash, holds no other, and
/// does not end there.
pub proof fn lemma_block_tags_are_written(block: Seq<char>)
    ensures
        forall|i: int|
            0 <= i < block_tags(block).len() ==> is_written_directive(
                #[trigger] block_tags(block)[i],
            ),
{
    let pieces = split_on(block, '\\');
    let kept = non_empty(pieces);
    lemma_pieces_hold_no_separator(block, '\\');
    lemma_non_empty_are_pieces(pieces);
    assert forall|i: int| 0 <= i < block_tags(block).len() implies is_written_directive(
        #[trigger] block_tags(block)[i],
    ) by {
        let piece = kept[i];
        let tag = block_tags(block)[i];
        assert(tag == seq!['\\'] + piece);
        assert(pieces.contains(piece));
        let k = choose|k: int| 0 <= k < pieces.len() && pieces[k] == piece;
        assert(!pieces[k].contains('\\'));
        assert forall|j: int| 1 <= j < tag.len() implies tag[j] != '\\' by {
            assert(tag[j] == piece[j - 1]);
            if piece[j - 1] == '\\' {
                assert(piece.contains('\\'));
            }
        }
    }
}

/// Every directive of a line begins with a backslash, holds no other, and
/// does not end there, so that what follows `\fn` is a family name and
/// nothing else.
pub proof fn lemma_tags_are_written(blocks: Seq<Seq<char>>)
    ensures
        forall|i: int|
            0 <= i < tags_in(blocks).len() ==> is_written_directive(#[trigger] tags_in(blocks)[i]),
    decreases blocks.len(),
{
    if blocks.len() > 0 {
        let before = tags_in(blocks.drop_last());
        let last = block_tags(blocks.last());
        lemma_tags_are_written(blocks.drop_last());
        lemma_block_tags_are_written(blocks.last());
        assert forall|i: int| 0 <= i < tags_in(blocks).len() implies is_written_directive(
            #[trigger] tags_in(blocks)[i],
        ) by {
            if i < before.len() {
                assert(tags_in(blocks)[i] == before[i]);
            } else {
                assert(tags_in(blocks)[i] == last[i - before.len()]);
            }
        }
    }
}

/// Where the first `{` of a line stands at `open` and the next `}` at `close`,
/// the blocks of the line are what stands between the two, followed by the
/// blocks of what comes after `close`.
proof fn lemma_blocks_step(line: Seq<char>, open: int, close: int)
    requires
        0 <= open < close < line.len(),
        open == index_of(line, '{'),
        close - (open + 1) == index_of(line.skip(open + 1), '}'),
    ensures
        blocks_of(line) == seq![line.subrange(open + 1, close)] + blocks_of(line.skip(close + 1)),
{
    let rest = line.skip(open + 1);
    assert(rest.take(close - (open + 1)) == line.subrange(open + 1, close));
    assert(rest.skip(close - (open + 1) + 1) == line.skip(close + 1));
}

/// Appends to `tags` the directives of the block `v[from..to]`.
fn push_block_tags(tags: &mut Vec<Vec<char>>, v: &Vec<char>, from: usize, to: usize)
    requires
        from <= to <= v.len(),
    ensures
        rows(final(tags)@) == rows(old(tags)@) + block_tags(v@.subrange(from as int, to as int)),
{
    let block = copy_range(v, from, to);
    let pieces = split_chars(&block, '\\');
    let ghost all = rows(pieces@);
    let ghost before = rows(tags@);
    let ghost lead = |piece: Seq<char>| seq!['\\'] + piece;
    let mut i: usize = 0;
    proof {
        assert(non_empty(all.take(0)).map_values(lead) == Seq::<Seq<char>>::empty());
        assert(before + Seq::<Seq<char>>::empty() == before);
    }
    while i < pieces.len()
        invariant
            i <= pieces.len(),
            all == rows(pieces@),
            lead == |piece: Seq<char>| seq!['\\'] + piece,
            rows(tags@) == before + non_empty(all.take(i as int)).map_values(lead),
        decreases pieces.len() - i,
    {
        let piece = &pieces[i];
        proof {
            let upto = all.take(i + 1);
            assert(upto.drop_last() == all.take(i as int));
            assert(upto.last() == piece@);
        }
        if piece.len() > 0 {
            let mut tag: Vec<char> = Vec::new();
            tag.push('\\');
            let mut j: usize = 0;
            while j < piece.len()
                invariant
                    j <= piece.len(),
                    tag@ == seq!['\\'] + piece@.take(j as int),
                decreases piece.len() - j,
            {
                tag.push(piece[j]);
                proof {
                    assert(piece@.take(j + 1) == piece@.take(j as int).push(piece@[j as int]));
                }
                j += 1;
            }
            proof {
                let kept = non_empty(all.take(i as int));
                assert(piece@.take(piece.len() as int) == piece@);
                assert(tag@ == lead(piece@));
                assert(rows(tags@.push(tag)) == rows(tags@).push(tag@));
                assert(kept.push(piece@).map_values(lead) == kept.map_values(lead).push(
                    lead(piece@),
                ));
                assert((before + kept.map_values(lead)).push(tag@) == before + kept.map_values(
                    lead,
                ).push(tag@));
            }
            tags.push(tag);
        }
        i += 1;
    }
    proof {
        assert(all.take(pieces.len() as int) == all);
    }
}

/// The directives of `line` as they are written, or `None` where the line
/// holds no override block.
pub fn get_tags(line: String) -> (found: Option<Vec<String>>)
    ensures
        found is Some <==> has_block(line@),
        found matches Some(tags) ==> texts(tags@) == tags_of(line@),
{
    let v = chars_of(line.as_str());
    let mut tags: Vec<Vec<char>> = Vec::new();
    let mut any = false;
    let mut pos: usize = 0;
    let ghost mut done: Seq<Seq<char>> = Seq::empty();
    proof {
        assert(v@.skip(0) == v@);
        assert(done + blocks_of(v@) == blocks_of(v@));
    }
    loop
        invariant_except_break
            pos <= v.len(),
            blocks_of(v@) == done + blocks_of(v@.skip(pos as int)),
            rows(tags@) == tags_in(done),
            any == (done.len() > 0),
        ensures
            rows(tags@) == tags_of(v@),
            any == has_block(v@),
        decreases v.len() - pos,
    {
        let ghost rest = v@.skip(pos as int);
        let open = find_char(&v, pos, '{');
        if open >= v.len() {
            proof {
                assert(blocks_of(rest) == Seq::<Seq<char>>::empty());
                assert(done + Seq::<Seq<char>>::empty() == done);
            }
            break;
        }
        let close = find_char(&v, open + 1, '}');
        proof {
            assert(rest.skip(open - pos + 1) == v@.skip(open + 1));
        }
        if close >= v.len() {
            proof {
                assert(blocks_of(rest) == Seq::<Seq<char>>::empty());
                assert(done + Seq::<Seq<char>>::empty() == done);
            }
            break;
        }
        proof {
            lemma_blocks_step(rest, open - pos, close - pos);
            assert(rest.subrange(open - pos + 1, close - pos) == v@.subrange(
                open + 1,
                close as int,
            ));
            assert(rest.skip(close - pos + 1) == v@.skip(close + 1));
            let block = v@.subrange(open + 1, close as int);
            assert(done + (seq![block] + blocks_of(v@.skip(close + 1))) == done.push(block)
                + blocks_of(v@.skip(close + 1)));
            assert(done.push(block).drop_last() == done);
            done = done.push(block);
        }
        push_block_tags(&mut tags, &v, open + 1, close);
        any = true;
        pos = close + 1;
    }
    if any {
        Some(strings_of(&tags))
    } else {
        None
    }
}

/// Reads one directive as it is written.
pub fn classify_tag(tag: &str) -> (d: OverrideDirective)
    ensures
        d@ == classify(tag@),
{
    let v = chars_of(tag);
    let n = v.len();
    if n >= 3 && v[0] == '\\' {
        if n == 3 && v[1] == 'b' && v[2] == '1' {
            proof {
                assert(v@ =~= seq!['\\', 'b', '1']);
            }
            return OverrideDirective::BoldOn;
        }
        if n == 3 && v[1] == 'b' && v[2] == '0' {
            proof {
                assert(v@ =~= seq!['\\', 'b', '0']);
            }
            return OverrideDirective::BoldOff;
        }
        if n == 3 && v[1] == 'i' && v[2] == '1' {
            proof {
                assert(v@ =~= seq!['\\', 'i', '1']);
            }
            return OverrideDirective::ItalicOn;
        }
        if n == 3 && v[1] == 'i' && v[2] == '0' {
            proof {
                assert(v@ =~= seq!['\\', 'i', '0']);
            }
            return OverrideDirective::ItalicOff;
        }
        if v[1] == 'f' && v[2] == 'n' {
            let name = copy_range(&v, 3, n);
            proof {
                assert(v@.take(3) =~= seq!['\\', 'f', 'n']);
                assert(v@.subrange(3, n as int) == v@.skip(3));
                lemma_not_a_flag(v@);
            }
            return OverrideDirective::SetFont(string_of(&name));
        }
    }
    proof {
        lemma_unrecognized(v@);
    }
    OverrideDirective::Unrecognized(string_of(&v))
}

/// A directive whose second and third characters are `f` and `n` is none of
/// the four flag directives.
proof fn lemma_not_a_flag(tag: Seq<char>)
    requires
        tag.len() >= 3,
        tag[1] == 'f',
    ensures
        tag != seq!['\\', 'b', '1'],
        tag != seq!['\\', 'b', '0'],
        tag != seq!['\\', 'i', '1'],
        tag != seq!['\\', 'i', '0'],
{
    assert(seq!['\\', 'b', '1'][1] == 'b');
    assert(seq!['\\', 'b', '0'][1] == 'b');
    assert(seq!['\\', 'i', '1'][1] == 'i');
    assert(seq!['\\', 'i', '0'][1] == 'i');
}

/// A directive that differs from the four flag directives in some place and
/// does not begin with `\fn` is not recognised.
proof fn lemma_unrecognized(tag: Seq<char>)
    requires
        !(tag.len() == 3 && tag[0] == '\\' && tag[1] == 'b' && tag[2] == '1'),
        !(tag.len() == 3 && tag[0] == '\\' && tag[1] == 'b' && tag[2] == '0'),
        !(tag.len() == 3 && tag[0] == '\\' && tag[1] == 'i' && tag[2] == '1'),
        !(tag.len() == 3 && tag[0] == '\\' && tag[1] == 'i' && tag[2] == '0'),
        !(tag.len() >= 3 && tag[0] == '\\' && tag[1] == 'f' && tag[2] == 'n'),
    ensures
        classify(tag) == Directive::Unrecognized(tag),
{
    let b1 = seq!['\\', 'b', '1'];
    let b0 = seq!['\\', 'b', '0'];
    let i1 = seq!['\\', 'i', '1'];
    let i0 = seq!['\\', 'i', '0'];
    let f = seq!['\\', 'f', 'n'];
    assert(b1.len() == 3 && b1[0] == '\\' && b1[1] == 'b' && b1[2] == '1');
    assert(b0.len() == 3 && b0[0] == '\\' && b0[1] == 'b' && b0[2] == '0');
    assert(i1.len() == 3 && i1[0] == '\\' && i1[1] == 'i' && i1[2] == '1');
    assert(i0.len() == 3 && i0[0] == '\\' && i0[1] == 'i' && i0[2] == '0');
    assert(f.len() == 3 && f[0] == '\\' && f[1] == 'f' && f[2] == 'n');
    if starts_with(tag, f) {
        assert(tag.take(3)[0] == tag[0]);
        assert(tag.take(3)[1] == tag[1]);
        assert(tag.take(3)[2] == tag[2]);
    }
}

/// The directives of `line`, or `None` where the line holds no override
/// block.
pub fn tokenize(line: &str) -> (found: Option<Vec<OverrideDirective>>)
    ensures
        found is Some <==> has_block(line@),
        found matches Some(ds) ==> directive_views(ds@) == directives_of(line@),
{
    match get_tags(line.to_owned()) {
        None => None,
        Some(tags) => {
            let ghost kind = |tag: Seq<char>| classify(tag);
            let mut ds: Vec<OverrideDirective> = Vec::new();
            let mut i: usize = 0;
            while i < tags.len()
                invariant
                    i <= tags.len(),
                    kind == |tag: Seq<char>| classify(tag),
                    directive_views(ds@) == texts(tags@).take(i as int).map_values(kind),
                decreases tags.len() - i,
            {
                let d = classify_tag(tags[i].as_str());
                proof {
                    assert(directive_views(ds@.push(d)) == directive_views(ds@).push(d@));
                    assert(texts(tags@).take(i + 1).map_values(kind) == texts(tags@).take(
                        i as int,
                    ).map_values(kind).push(kind(texts(tags@)[i as int])));
                }
                ds.push(d);
                i += 1;
            }
            proof {
                assert(texts(tags@).take(tags.len() as int) == texts(tags@));
            }
            Some(ds)
        },
    }
}

} // verus!
