//! Character sequences: searching, splitting, prefixes and lines.
//!
//! Every function here works on the characters of a text, which is how the
//! contracts of the whole crate speak of strings (`Seq<char>`).

use vstd::prelude::*;

verus! {

/// `String::push` appends one character to the end of the string.
pub assume_specification[ String::push ](s: &mut String, ch: char)
    ensures
        final(s)@ == old(s)@.push(ch),
;

/// The lowercase form of `s` as `str::to_lowercase` gives it.
pub uninterp spec fn lowercase(s: Seq<char>) -> Seq<char>;

/// `str::to_lowercase` returns the lowercase equivalent of the text, which
/// depends on the characters of the text alone. Nothing more is claimed of it
/// than that it is this function of them.
#[verifier::external_body]
pub(crate) fn lowercased(s: &str) -> (out: String)
    ensures
        out@ == lowercase(s@),
{
    s.to_lowercase()
}

/// The first position of `c` in `s`, or the length of `s` where `c` does not
/// occur in it.
pub open spec fn index_of(s: Seq<char>, c: char) -> int
    decreases s.len(),
{
    if s.len() == 0 || s[0] == c {
        0
    } else {
        1 + index_of(s.drop_first(), c)
    }
}

/// The pieces of `s` between the occurrences of `sep`. There is always one
/// piece more than there are separators; a piece may be empty.
pub open spec fn split_on(s: Seq<char>, sep: char) -> Seq<Seq<char>>
    decreases s.len(),
{
    let k = index_of(s, sep);
    if 0 <= k < s.len() {
        seq![s.take(k)] + split_on(s.skip(k + 1), sep)
    } else {
        seq![s]
    }
}

/// The pieces of `pieces` that are not empty, in their order.
pub open spec fn non_empty(pieces: Seq<Seq<char>>) -> Seq<Seq<char>>
    decreases pieces.len(),
{
    if pieces.len() == 0 {
        pieces
    } else if pieces.last().len() == 0 {
        non_empty(pieces.drop_last())
    } else {
        non_empty(pieces.drop_last()).push(pieces.last())
    }
}

/// `s` begins with `prefix`.
pub open spec fn starts_with(s: Seq<char>, prefix: Seq<char>) -> bool {
    prefix.len() <= s.len() && s.take(prefix.len() as int) == prefix
}

/// `pat` stands in `s` at position `at`.
pub open spec fn occurs_at(s: Seq<char>, pat: Seq<char>, at: int) -> bool {
    0 <= at && at + pat.len() <= s.len() && s.subrange(at, at + pat.len()) == pat
}

/// `pat` stands somewhere in `s`.
pub open spec fn contains(s: Seq<char>, pat: Seq<char>) -> bool {
    exists|at: int| occurs_at(s, pat, at)
}

/// `s` with every leading repetition of `prefix` removed.
pub open spec fn strip_leading(s: Seq<char>, prefix: Seq<char>) -> Seq<char>
    decreases s.len(),
{
    if prefix.len() > 0 && starts_with(s, prefix) {
        strip_leading(s.skip(prefix.len() as int), prefix)
    } else {
        s
    }
}

/// `s` without one carriage return at its end, if it has one.
pub open spec fn strip_cr(s: Seq<char>) -> Seq<char> {
    if s.len() > 0 && s.last() == '\r' {
        s.drop_last()
    } else {
        s
    }
}

/// The lines of `s`. A line ends at a line feed; a carriage return just
/// before that line feed belongs to the line ending too. What follows the
/// last line feed is a line of its own unless it is empty.
pub open spec fn lines_of(s: Seq<char>) -> Seq<Seq<char>> {
    let pieces = split_on(s, '\n');
    let ended = pieces.drop_last().map_values(|l: Seq<char>| strip_cr(l));
    if pieces.last().len() == 0 {
        ended
    } else {
        ended.push(pieces.last())
    }
}

/// `s` ends with `suffix`.
pub open spec fn ends_with(s: Seq<char>, suffix: Seq<char>) -> bool {
    suffix.len() <= s.len() && s.skip(s.len() - suffix.len()) == suffix
}

/// `s` without any occurrence of the character `c`.
pub open spec fn without_char(s: Seq<char>, c: char) -> Seq<char>
    decreases s.len(),
{
    if s.len() == 0 {
        s
    } else if s.last() == c {
        without_char(s.drop_last(), c)
    } else {
        without_char(s.drop_last(), c).push(s.last())
    }
}

/// `s` with every occurrence of `from` replaced by `to`. Occurrences are
/// taken from left to right and do not overlap; an empty `from` occurs
/// nowhere.
pub open spec fn replace_all(s: Seq<char>, from: Seq<char>, to: Seq<char>) -> Seq<char>
    decreases s.len(),
{
    if s.len() == 0 || from.len() == 0 {
        s
    } else if starts_with(s, from) {
        to + replace_all(s.skip(from.len() as int), from, to)
    } else {
        seq![s[0]] + replace_all(s.skip(1), from, to)
    }
}

/// The character that stands for the digit `d`.
pub open spec fn digit(d: nat) -> char {
    if d == 0 {
        '0'
    } else if d == 1 {
        '1'
    } else if d == 2 {
        '2'
    } else if d == 3 {
        '3'
    } else if d == 4 {
        '4'
    } else if d == 5 {
        '5'
    } else if d == 6 {
        '6'
    } else if d == 7 {
        '7'
    } else if d == 8 {
        '8'
    } else {
        '9'
    }
}

/// `n` written in decimal digits, without leading zeros.
pub open spec fn decimal(n: nat) -> Seq<char>
    decreases n,
{
    if n < 10 {
        seq![digit(n)]
    } else {
        decimal(n / 10).push(digit(n % 10))
    }
}

/// The character sequences that the rows of `v` hold.
pub open spec fn rows(v: Seq<Vec<char>>) -> Seq<Seq<char>> {
    v.map_values(|r: Vec<char>| r@)
}

/// The character sequences that the strings of `v` hold.
pub open spec fn texts(v: Seq<String>) -> Seq<Seq<char>> {
    v.map_values(|t: String| t@)
}

/// `index_of` is in range, nothing before it is `c`, and where it is inside
/// `s` it points at `c`.
pub proof fn lemma_index_of_bounds(s: Seq<char>, c: char)
    ensures
        0 <= index_of(s, c) <= s.len(),
        forall|j: int| 0 <= j < index_of(s, c) ==> s[j] != c,
        index_of(s, c) < s.len() ==> s[index_of(s, c)] == c,
    decreases s.len(),
{
    if s.len() == 0 || s[0] == c {
    } else {
        let t = s.drop_first();
        lemma_index_of_bounds(t, c);
        assert forall|j: int| 0 <= j < index_of(s, c) implies s[j] != c by {
            if j > 0 {
                assert(s[j] == t[j - 1]);
            }
        }
        assert(index_of(s, c) < s.len() ==> s[index_of(s, c)] == t[index_of(t, c)]);
    }
}

/// A position before which `c` does not occur, and which holds `c` or is the
/// end of `s`, is `index_of(s, c)`.
pub proof fn lemma_index_of_is(s: Seq<char>, c: char, k: int)
    requires
        0 <= k <= s.len(),
        forall|j: int| 0 <= j < k ==> s[j] != c,
        k < s.len() ==> s[k] == c,
    ensures
        index_of(s, c) == k,
    decreases s.len(),
{
    if k > 0 {
        let t = s.drop_first();
        assert forall|j: int| 0 <= j < k - 1 implies t[j] != c by {
            assert(t[j] == s[j + 1]);
        }
        assert(k - 1 < t.len() ==> t[k - 1] == s[k]);
        lemma_index_of_is(t, c, k - 1);
    }
}

/// No piece of a split holds the separator.
pub proof fn lemma_pieces_hold_no_separator(s: Seq<char>, sep: char)
    ensures
        forall|i: int|
            0 <= i < split_on(s, sep).len() ==> !(#[trigger] split_on(s, sep)[i]).contains(sep),
    decreases s.len(),
{
    let k = index_of(s, sep);
    lemma_index_of_bounds(s, sep);
    let pieces = split_on(s, sep);
    if k < s.len() {
        let rest = split_on(s.skip(k + 1), sep);
        lemma_pieces_hold_no_separator(s.skip(k + 1), sep);
        assert forall|i: int| 0 <= i < pieces.len() implies !(#[trigger] pieces[i]).contains(
            sep,
        ) by {
            if i == 0 {
                let first = s.take(k);
                assert(pieces[0] == first);
                if first.contains(sep) {
                    let j = choose|j: int| 0 <= j < first.len() && first[j] == sep;
                    assert(s[j] == sep);
                }
            } else {
                assert(pieces[i] == rest[i - 1]);
            }
        }
    } else {
        assert(pieces[0] == s);
        if s.contains(sep) {
            let j = choose|j: int| 0 <= j < s.len() && s[j] == sep;
        }
    }
}

/// What `non_empty` keeps is not empty, and is one of the pieces it was given.
pub proof fn lemma_non_empty_are_pieces(pieces: Seq<Seq<char>>)
    ensures
        forall|i: int|
            0 <= i < non_empty(pieces).len() ==> (#[trigger] non_empty(pieces)[i]).len() > 0
                && pieces.contains(non_empty(pieces)[i]),
    decreases pieces.len(),
{
    if pieces.len() > 0 {
        let before = pieces.drop_last();
        let kept = non_empty(pieces);
        lemma_non_empty_are_pieces(before);
        assert forall|i: int| 0 <= i < kept.len() implies (#[trigger] kept[i]).len() > 0
            && pieces.contains(kept[i]) by {
            if i < non_empty(before).len() {
                assert(kept[i] == non_empty(before)[i]);
                let j = choose|j: int| 0 <= j < before.len() && before[j] == kept[i];
                assert(pieces[j] == kept[i]);
            } else {
                assert(kept[i] == pieces[pieces.len() - 1]);
            }
        }
    }
}

/// The characters of `s`, in order.
pub fn chars_of(s: &str) -> (out: Vec<char>)
    ensures
        out@ == s@,
{
    let mut out: Vec<char> = Vec::new();
    for c in it: s.chars()
        invariant
            it.seq() == s@,
            out@ == s@.take(it.index()),
    {
        out.push(c);
    }
    out
}

/// The string made of the characters of `v`.
pub fn string_of(v: &Vec<char>) -> (out: String)
    ensures
        out@ == v@,
{
    let mut out = String::new();
    let mut i: usize = 0;
    while i < v.len()
        invariant
            i <= v.len(),
            out@ == v@.take(i as int),
        decreases v.len() - i,
    {
        out.push(v[i]);
        i += 1;
    }
    out
}

/// The strings made of the rows of `v`, in order.
pub fn strings_of(v: &Vec<Vec<char>>) -> (out: Vec<String>)
    ensures
        texts(out@) == rows(v@),
{
    let mut out: Vec<String> = Vec::new();
    let mut i: usize = 0;
    while i < v.len()
        invariant
            i <= v.len(),
            texts(out@) == rows(v@.take(i as int)),
        decreases v.len() - i,
    {
        let t = string_of(&v[i]);
        proof {
            assert(v@.take(i + 1) == v@.take(i as int).push(v@[i as int]));
            assert(texts(out@.push(t)) == texts(out@).push(t@));
            assert(rows(v@.take(i as int).push(v@[i as int])) == rows(v@.take(i as int)).push(
                v@[i as int]@,
            ));
        }
        out.push(t);
        i += 1;
    }
    proof {
        assert(v@.take(v.len() as int) == v@);
    }
    out
}

/// The characters `v[from..to]`.
pub fn copy_range(v: &Vec<char>, from: usize, to: usize) -> (out: Vec<char>)
    requires
        from <= to <= v.len(),
    ensures
        out@ == v@.subrange(from as int, to as int),
{
    let mut out: Vec<char> = Vec::new();
    let mut i: usize = from;
    while i < to
        invariant
            from <= i <= to <= v.len(),
            out@ == v@.subrange(from as int, i as int),
        decreases to - i,
    {
        out.push(v[i]);
        i += 1;
    }
    out
}

/// The first position of `c` at or after `from`, or the length of `v`.
pub fn find_char(v: &Vec<char>, from: usize, c: char) -> (at: usize)
    requires
        from <= v.len(),
    ensures
        from <= at <= v.len(),
        at - from == index_of(v@.skip(from as int), c),
{
    let mut i: usize = from;
    while i < v.len() && v[i] != c
        invariant
            from <= i <= v.len(),
            forall|j: int| from <= j < i ==> v@[j] != c,
        decreases v.len() - i,
    {
        i += 1;
    }
    proof {
        lemma_index_of_is(v@.skip(from as int), c, i - from);
    }
    i
}

/// Splits `v` at every `sep`.
pub fn split_chars(v: &Vec<char>, sep: char) -> (out: Vec<Vec<char>>)
    ensures
        rows(out@) == split_on(v@, sep),
        out.len() >= 1,
{
    let mut out: Vec<Vec<char>> = Vec::new();
    let mut start: usize = 0;
    proof {
        assert(v@.skip(0) == v@);
        assert(rows(out@) + split_on(v@, sep) == split_on(v@, sep));
    }
    loop
        invariant_except_break
            start <= v.len(),
            split_on(v@, sep) == rows(out@) + split_on(v@.skip(start as int), sep),
        ensures
            rows(out@) == split_on(v@, sep),
            out.len() >= 1,
        decreases v.len() - start,
    {
        let at = find_char(v, start, sep);
        let piece = copy_range(v, start, at);
        let ghost rest = v@.skip(start as int);
        proof {
            assert(piece@ == rest.take(at - start));
            assert(rows(out@.push(piece)) == rows(out@).push(piece@));
        }
        out.push(piece);
        if at >= v.len() {
            proof {
                assert(rest.take(rest.len() as int) == rest);
            }
            break;
        }
        proof {
            assert(rest.skip(at - start + 1) == v@.skip(at + 1));
        }
        start = at + 1;
    }
    out
}

/// Does `pat` stand in `v` at position `at`?
pub fn matches_at(v: &Vec<char>, at: usize, pat: &Vec<char>) -> (b: bool)
    ensures
        b == occurs_at(v@, pat@, at as int),
{
    if pat.len() > v.len() || at > v.len() - pat.len() {
        return false;
    }
    let mut i: usize = 0;
    while i < pat.len()
        invariant
            i <= pat.len(),
            at + pat.len() <= v.len(),
            forall|j: int| 0 <= j < i ==> v@[at + j] == pat@[j],
        decreases pat.len() - i,
    {
        if v[at + i] != pat[i] {
            proof {
                assert(v@.subrange(at as int, at + pat.len())[i as int] == v@[at + i]);
            }
            return false;
        }
        i += 1;
    }
    proof {
        assert(v@.subrange(at as int, at + pat.len()) =~= pat@);
    }
    true
}

/// Do `a` and `b` hold the same characters?
pub fn same_chars(a: &Vec<char>, b: &Vec<char>) -> (same: bool)
    ensures
        same == (a@ == b@),
{
    if a.len() != b.len() {
        return false;
    }
    let same = matches_at(a, 0, b);
    proof {
        assert(a@.subrange(0, 0 + b.len()) == a@);
    }
    same
}

/// Does `v` begin with `prefix`?
pub fn has_prefix(v: &Vec<char>, prefix: &Vec<char>) -> (b: bool)
    ensures
        b == starts_with(v@, prefix@),
{
    let b = matches_at(v, 0, prefix);
    proof {
        if prefix.len() <= v.len() {
            assert(v@.take(prefix.len() as int) == v@.subrange(0, 0 + prefix.len()));
        }
    }
    b
}

/// Does `pat` stand somewhere in `v`?
pub fn has_substring(v: &Vec<char>, pat: &Vec<char>) -> (b: bool)
    ensures
        b == contains(v@, pat@),
{
    if pat.len() > v.len() {
        return false;
    }
    let last: usize = v.len() - pat.len();
    let mut at: usize = 0;
    loop
        invariant
            at <= last,
            last == v.len() - pat.len(),
            forall|k: int| 0 <= k < at ==> !occurs_at(v@, pat@, k),
        decreases last - at,
    {
        if matches_at(v, at, pat) {
            return true;
        }
        if at == last {
            return false;
        }
        at += 1;
    }
}

/// `v` with every leading repetition of `prefix` removed.
pub fn without_leading(v: &Vec<char>, prefix: &Vec<char>) -> (out: Vec<char>)
    ensures
        out@ == strip_leading(v@, prefix@),
{
    let mut start: usize = 0;
    proof {
        assert(v@.skip(0) == v@);
    }
    if prefix.len() > 0 {
        while matches_at(v, start, prefix)
            invariant
                start <= v.len(),
                prefix.len() > 0,
                strip_leading(v@, prefix@) == strip_leading(v@.skip(start as int), prefix@),
            decreases v.len() - start,
        {
            proof {
                let rest = v@.skip(start as int);
                assert(rest.take(prefix.len() as int) == v@.subrange(
                    start as int,
                    start + prefix.len(),
                ));
                assert(rest.skip(prefix.len() as int) == v@.skip(start + prefix.len()));
            }
            start += prefix.len();
        }
        proof {
            let rest = v@.skip(start as int);
            if prefix.len() <= rest.len() {
                assert(rest.take(prefix.len() as int) == v@.subrange(
                    start as int,
                    start + prefix.len(),
                ));
            }
        }
    }
    let out = copy_range(v, start, v.len());
    proof {
        assert(v@.subrange(start as int, v.len() as int) == v@.skip(start as int));
    }
    out
}

/// Does `v` end with `suffix`?
pub fn has_suffix(v: &Vec<char>, suffix: &Vec<char>) -> (b: bool)
    ensures
        b == ends_with(v@, suffix@),
{
    if suffix.len() > v.len() {
        return false;
    }
    let at: usize = v.len() - suffix.len();
    let b = matches_at(v, at, suffix);
    proof {
        assert(v@.skip(at as int) == v@.subrange(at as int, at + suffix.len()));
    }
    b
}

/// `v` without any occurrence of `c`.
pub fn remove_char(v: &Vec<char>, c: char) -> (out: Vec<char>)
    ensures
        out@ == without_char(v@, c),
{
    let mut out: Vec<char> = Vec::new();
    let mut i: usize = 0;
    while i < v.len()
        invariant
            i <= v.len(),
            out@ == without_char(v@.take(i as int), c),
        decreases v.len() - i,
    {
        proof {
            let upto = v@.take(i + 1);
            assert(upto.drop_last() == v@.take(i as int));
            assert(upto.last() == v@[i as int]);
        }
        if v[i] != c {
            out.push(v[i]);
        }
        i += 1;
    }
    proof {
        assert(v@.take(v.len() as int) == v@);
    }
    out
}

/// Appends the characters of `more` to `out`.
pub fn append_chars(out: &mut Vec<char>, more: &Vec<char>)
    ensures
        final(out)@ == old(out)@ + more@,
{
    let ghost start = out@;
    let mut i: usize = 0;
    while i < more.len()
        invariant
            i <= more.len(),
            out@ == start + more@.take(i as int),
        decreases more.len() - i,
    {
        proof {
            assert(more@.take(i + 1) == more@.take(i as int).push(more@[i as int]));
            assert((start + more@.take(i as int)).push(more@[i as int]) == start + more@.take(
                i as int,
            ).push(more@[i as int]));
        }
        out.push(more[i]);
        i += 1;
    }
    proof {
        assert(more@.take(more.len() as int) == more@);
    }
}

/// `v` with every occurrence of `from` replaced by `to`.
pub fn replace_chars(v: &Vec<char>, from: &Vec<char>, to: &Vec<char>) -> (out: Vec<char>)
    ensures
        out@ == replace_all(v@, from@, to@),
{
    if from.len() == 0 {
        return v.clone();
    }
    let mut out: Vec<char> = Vec::new();
    let mut pos: usize = 0;
    proof {
        assert(v@.skip(0) == v@);
        assert(out@ + replace_all(v@, from@, to@) == replace_all(v@, from@, to@));
    }
    while pos < v.len()
        invariant
            pos <= v.len(),
            from.len() > 0,
            replace_all(v@, from@, to@) == out@ + replace_all(v@.skip(pos as int), from@, to@),
        decreases v.len() - pos,
    {
        let ghost rest = v@.skip(pos as int);
        let ghost done = out@;
        if matches_at(v, pos, from) {
            proof {
                assert(rest.take(from.len() as int) == v@.subrange(
                    pos as int,
                    pos + from.len(),
                ));
                assert(rest.skip(from.len() as int) == v@.skip(pos + from.len()));
                let tail = replace_all(v@.skip(pos + from.len()), from@, to@);
                assert(done + (to@ + tail) == (done + to@) + tail);
            }
            append_chars(&mut out, to);
            pos += from.len();
        } else {
            proof {
                if from.len() <= rest.len() {
                    assert(rest.take(from.len() as int) == v@.subrange(
                        pos as int,
                        pos + from.len(),
                    ));
                }
                assert(rest.skip(1) == v@.skip(pos + 1));
                let tail = replace_all(v@.skip(pos + 1), from@, to@);
                assert(done + (seq![rest[0]] + tail) == done.push(v@[pos as int]) + tail);
            }
            out.push(v[pos]);
            pos += 1;
        }
    }
    proof {
        assert(out@ + Seq::<char>::empty() == out@);
    }
    out
}

/// The character that stands for the digit `d`.
pub fn digit_char(d: usize) -> (c: char)
    requires
        d < 10,
    ensures
        c == digit(d as nat),
{
    if d == 0 {
        '0'
    } else if d == 1 {
        '1'
    } else if d == 2 {
        '2'
    } else if d == 3 {
        '3'
    } else if d == 4 {
        '4'
    } else if d == 5 {
        '5'
    } else if d == 6 {
        '6'
    } else if d == 7 {
        '7'
    } else if d == 8 {
        '8'
    } else {
        '9'
    }
}

/// Appends `n`, written in decimal digits, to `out`.
pub fn push_decimal(out: &mut Vec<char>, n: usize)
    ensures
        final(out)@ == old(out)@ + decimal(n as nat),
    decreases n,
{
    let ghost start = out@;
    if n < 10 {
        out.push(digit_char(n));
        proof {
            assert(start.push(digit(n as nat)) == start + seq![digit(n as nat)]);
        }
    } else {
        push_decimal(out, n / 10);
        out.push(digit_char(n % 10));
        proof {
            let head = decimal((n / 10) as nat);
            let d = digit((n % 10) as nat);
            assert((start + head).push(d) == start + head.push(d));
        }
    }
}

/// The lines of `v`.
pub fn split_lines(v: &Vec<char>) -> (out: Vec<Vec<char>>)
    ensures
        rows(out@) == lines_of(v@),
{
    let mut pieces = split_chars(v, '\n');
    let ghost all = rows(pieces@);
    let last = pieces.pop().unwrap();
    proof {
        assert(rows(pieces@) == all.drop_last());
        assert(last@ == all.last());
    }
    let mut out: Vec<Vec<char>> = Vec::new();
    let mut i: usize = 0;
    while i < pieces.len()
        invariant
            i <= pieces.len(),
            rows(out@) == rows(pieces@).take(i as int).map_values(|l: Seq<char>| strip_cr(l)),
        decreases pieces.len() - i,
    {
        let piece = &pieces[i];
        let n = piece.len();
        let line = if n > 0 && piece[n - 1] == '\r' {
            copy_range(piece, 0, n - 1)
        } else {
            copy_range(piece, 0, n)
        };
        proof {
            assert(piece@.subrange(0, n as int) == piece@);
            assert(piece@.subrange(0, n - 1) == piece@.drop_last());
            assert(line@ == strip_cr(piece@));
            assert(rows(out@.push(line)) == rows(out@).push(line@));
            assert(rows(pieces@).take(i + 1).map_values(|l: Seq<char>| strip_cr(l)) == rows(
                pieces@,
            ).take(i as int).map_values(|l: Seq<char>| strip_cr(l)).push(strip_cr(piece@)));
        }
        out.push(line);
        i += 1;
    }
    proof {
        assert(rows(pieces@).take(pieces.len() as int) == rows(pieces@));
    }
    if last.len() > 0 {
        proof {
            assert(rows(out@.push(last)) == rows(out@).push(last@));
        }
        out.push(last);
    }
    out
}

} // verus!
