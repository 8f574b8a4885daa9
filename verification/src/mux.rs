//! What the muxer is told: the arguments that attach the fonts of a script
//! to its container.

use vstd::prelude::*;
use vstd::string::StringExecFns;
use crate::font::{AssFile, AssFont};
use crate::text::{
    chars_of, decimal, ends_with, has_suffix, lowercase, lowercased, push_decimal, remove_char,
    rows, same_chars, split_chars, split_on, string_of, strings_of, texts, without_char,
};

verus! {

/// Where a reader of a command stands after some of its characters.
pub struct SplitState {
    /// An opening quotation mark has not been closed yet.
    pub quoted: bool,
    /// The word that is being read.
    pub word: Seq<char>,
    /// The words that are complete.
    pub words: Seq<Seq<char>>,
}

/// Reads `s` character by character. A quotation mark switches quoting on or
/// off and belongs to no word; a space outside quotes ends the word that is
/// being read, if there is one; every other character belongs to the word.
pub open spec fn split_scan(s: Seq<char>) -> SplitState
    decreases s.len(),
{
    if s.len() == 0 {
        SplitState { quoted: false, word: Seq::empty(), words: Seq::empty() }
    } else {
        let st = split_scan(s.drop_last());
        let c = s.last();
        if c == '"' {
            SplitState { quoted: !st.quoted, ..st }
        } else if c == ' ' && !st.quoted {
            if st.word.len() > 0 {
                SplitState { word: Seq::empty(), words: st.words.push(st.word), ..st }
            } else {
                st
            }
        } else {
            SplitState { word: st.word.push(c), ..st }
        }
    }
}

/// The words of the command `s`: what spaces outside quotation marks
/// separate, without the quotation marks and without empty words.
pub open spec fn space_split(s: Seq<char>) -> Seq<Seq<char>> {
    let st = split_scan(s);
    if st.word.len() > 0 {
        st.words.push(st.word)
    } else {
        st.words
    }
}

/// No word of a command is empty.
pub proof fn lemma_words_are_not_empty(s: Seq<char>)
    ensures
        forall|i: int| 0 <= i < split_scan(s).words.len() ==> (#[trigger] split_scan(
            s,
        ).words[i]).len() > 0,
        forall|i: int| 0 <= i < space_split(s).len() ==> (#[trigger] space_split(s)[i]).len() > 0,
    decreases s.len(),
{
    let st = split_scan(s);
    if s.len() > 0 {
        let before = split_scan(s.drop_last());
        lemma_words_are_not_empty(s.drop_last());
        assert forall|i: int| 0 <= i < st.words.len() implies (#[trigger] st.words[i]).len()
            > 0 by {
            if i < before.words.len() {
                assert(st.words[i] == before.words[i]);
            }
        }
    }
    assert forall|i: int| 0 <= i < space_split(s).len() implies (#[trigger] space_split(
        s,
    )[i]).len() > 0 by {
        if i < st.words.len() {
            assert(space_split(s)[i] == st.words[i]);
        }
    }
}

/// Splits a command into its words at the spaces that stand outside
/// quotation marks. The quotation marks themselves are dropped.
pub fn controlled_space_splitting(input: String) -> (output: Vec<String>)
    ensures
        texts(output@) == space_split(input@),
{
    let v = chars_of(input.as_str());
    let mut words: Vec<Vec<char>> = Vec::new();
    let mut word: Vec<char> = Vec::new();
    let mut quoted = false;
    let mut i: usize = 0;
    proof {
        assert(rows(words@) == Seq::<Seq<char>>::empty());
    }
    while i < v.len()
        invariant
            i <= v.len(),
            split_scan(v@.take(i as int)).quoted == quoted,
            split_scan(v@.take(i as int)).word == word@,
            split_scan(v@.take(i as int)).words == rows(words@),
        decreases v.len() - i,
    {
        let c = v[i];
        proof {
            let upto = v@.take(i + 1);
            assert(upto.drop_last() == v@.take(i as int));
            assert(upto.last() == c);
        }
        if c == '"' {
            quoted = !quoted;
        } else if c == ' ' && !quoted {
            if word.len() > 0 {
                proof {
                    assert(rows(words@.push(word)) == rows(words@).push(word@));
                }
                words.push(word);
                word = Vec::new();
            }
        } else {
            word.push(c);
        }
        i += 1;
    }
    proof {
        assert(v@.take(v.len() as int) == v@);
    }
    if word.len() > 0 {
        proof {
            assert(rows(words@.push(word)) == rows(words@).push(word@));
        }
        words.push(word);
    }
    strings_of(&words)
}

/// The media type of a font file, told by the end of its lowercase path.
pub open spec fn mime_of(lower: Seq<char>) -> Option<Seq<char>> {
    if ends_with(lower, ".ttf"@) {
        Some("application/x-truetype-font"@)
    } else if ends_with(lower, ".otf"@) {
        Some("application/x-font-opentype"@)
    } else if ends_with(lower, ".ttc"@) {
        Some("application/x-truetype-collection"@)
    } else {
        None
    }
}

/// The character that separates the parts of a path.
pub open spec fn separator(windows: bool) -> char {
    if windows {
        '\\'
    } else {
        '/'
    }
}

/// The last part of a path.
pub open spec fn file_name_of(path: Seq<char>, windows: bool) -> Seq<char> {
    split_on(path, separator(windows)).last()
}

/// The option that addresses the attachment number `track`.
pub open spec fn track_option(track: nat) -> Seq<char> {
    " -metadata:s:"@ + decimal(track)
}

/// The part of the command that attaches one font file: the file itself,
/// its media type where the path tells one, and its file name. `lower` is
/// the path in lowercase and without quotation marks.
pub open spec fn attach_text(path: Seq<char>, lower: Seq<char>, track: nat, windows: bool) -> Seq<
    char,
> {
    let head = " -attach "@ + path;
    let typed = match mime_of(lower) {
        Some(mime) => head + track_option(track) + " mimetype="@ + mime,
        None => head,
    };
    typed + track_option(track) + " filename=\""@ + file_name_of(lower, windows) + "\""@
}

/// The media type of the font file whose lowercase path is `lower`.
pub fn mime_type(lower: &str) -> (mime: Option<&'static str>)
    ensures
        match mime {
            Some(m) => mime_of(lower@) == Some(m@),
            None => mime_of(lower@) is None,
        },
{
    let v = chars_of(lower);
    if has_suffix(&v, &chars_of(".ttf")) {
        Some("application/x-truetype-font")
    } else if has_suffix(&v, &chars_of(".otf")) {
        Some("application/x-font-opentype")
    } else if has_suffix(&v, &chars_of(".ttc")) {
        Some("application/x-truetype-collection")
    } else {
        None
    }
}

/// The last part of the path `path`.
pub fn file_name(path: &str, windows: bool) -> (name: String)
    ensures
        name@ == file_name_of(path@, windows),
{
    let v = chars_of(path);
    let sep = if windows {
        '\\'
    } else {
        '/'
    };
    let parts = split_chars(&v, sep);
    proof {
        assert(rows(parts@).last() == parts@[parts.len() - 1]@);
    }
    string_of(&parts[parts.len() - 1])
}

/// The option that addresses the attachment number `track`.
pub fn track_option_text(track: usize) -> (out: String)
    ensures
        out@ == track_option(track as nat),
{
    let mut v = chars_of(" -metadata:s:");
    push_decimal(&mut v, track);
    string_of(&v)
}

/// The part of the command that attaches the font file at `path` as
/// attachment number `track`. `lower` is the path in lowercase and without
/// quotation marks.
pub fn attachment(path: &str, lower: &str, track: usize, windows: bool) -> (out: String)
    ensures
        out@ == attach_text(path@, lower@, track as nat, windows),
{
    let option = track_option_text(track);
    let mut out = String::new();
    out.append(" -attach ");
    out.append(path);
    proof {
        assert(Seq::<char>::empty() + " -attach "@ == " -attach "@);
    }
    match mime_type(lower) {
        Some(mime) => {
            out.append(option.as_str());
            out.append(" mimetype=");
            out.append(mime);
        },
        None => {},
    }
    let name = file_name(lower, windows);
    out.append(option.as_str());
    out.append(" filename=\"");
    out.append(name.as_str());
    out.append("\"");
    out
}

/// What stands in the place of a path where no font file was found.
pub open spec fn not_found() -> Seq<char> {
    "Nothing found."@
}

/// A path in lowercase and without quotation marks.
pub open spec fn bare_lower(path: Seq<char>) -> Seq<char> {
    lowercase(without_char(path, '"'))
}

/// A path that names a font file: it is not empty, and it is not what stands
/// in the place of a path where no file was found.
pub open spec fn is_file_path(path: Seq<char>) -> bool {
    path.len() > 0 && path != not_found()
}

/// The font files to attach: the paths of `fonts` that name a file, each
/// once, in the order in which the fonts first name them. A font without a
/// path names no file and is passed over.
pub open spec fn attached_paths(fonts: Seq<AssFont>) -> Seq<Seq<char>>
    decreases fonts.len(),
{
    if fonts.len() == 0 {
        Seq::empty()
    } else {
        let before = attached_paths(fonts.drop_last());
        let path = fonts.last().path@;
        if is_file_path(path) && !before.contains(path) {
            before.push(path)
        } else {
            before
        }
    }
}

/// The families of the fonts that were not found, in the order of the fonts.
pub open spec fn missing_families(fonts: Seq<AssFont>) -> Seq<Seq<char>>
    decreases fonts.len(),
{
    if fonts.len() == 0 {
        Seq::empty()
    } else {
        let before = missing_families(fonts.drop_last());
        if fonts.last().path@ == not_found() {
            before.push(fonts.last().facename@)
        } else {
            before
        }
    }
}

/// The part of the command that attaches the files at `paths`: the first as
/// attachment 1, the next as attachment 2, and so on.
pub open spec fn attach_command(paths: Seq<Seq<char>>, windows: bool) -> Seq<char>
    decreases paths.len(),
{
    if paths.len() == 0 {
        Seq::empty()
    } else {
        attach_command(paths.drop_last(), windows) + attach_text(
            paths.last(),
            bare_lower(paths.last()),
            paths.len(),
            windows,
        )
    }
}

/// Some font of `fonts` has the path `path`.
pub open spec fn names_path(fonts: Seq<AssFont>, path: Seq<char>) -> bool {
    exists|i: int| 0 <= i < fonts.len() && (#[trigger] fonts[i]).path@ == path
}

/// Among `fonts`, the path `a` is named before the path `b` is named for the
/// first time.
pub open spec fn named_before(fonts: Seq<AssFont>, a: Seq<char>, b: Seq<char>) -> bool {
    exists|i: int|
        0 <= i < fonts.len() && (#[trigger] fonts[i]).path@ == a && forall|j: int|
            0 <= j <= i ==> (#[trigger] fonts[j]).path@ != b
}

/// No file is attached twice.
pub proof fn lemma_attached_are_distinct(fonts: Seq<AssFont>)
    ensures
        attached_paths(fonts).no_duplicates(),
    decreases fonts.len(),
{
    if fonts.len() > 0 {
        lemma_attached_are_distinct(fonts.drop_last());
    }
}

/// The files that are attached are exactly the files that the fonts name.
pub proof fn lemma_attached_are_the_named(fonts: Seq<AssFont>)
    ensures
        forall|path: Seq<char>|
            #[trigger] attached_paths(fonts).contains(path) <==> is_file_path(path) && names_path(
                fonts,
                path,
            ),
    decreases fonts.len(),
{
    let out = attached_paths(fonts);
    if fonts.len() == 0 {
        assert forall|path: Seq<char>| out.contains(path) <==> is_file_path(path) && names_path(
            fonts,
            path,
        ) by {
            if out.contains(path) {
                let k = choose|k: int| 0 <= k < out.len() && out[k] == path;
            }
        }
    } else {
        let before = fonts.drop_last();
        let earlier = attached_paths(before);
        lemma_attached_are_the_named(before);
        assert forall|path: Seq<char>| out.contains(path) <==> is_file_path(path) && names_path(
            fonts,
            path,
        ) by {
            if out.contains(path) {
                let k = choose|k: int| 0 <= k < out.len() && out[k] == path;
                if k < earlier.len() {
                    assert(earlier[k] == path);
                    assert(earlier.contains(path));
                    let i = choose|i: int|
                        0 <= i < before.len() && (#[trigger] before[i]).path@ == path;
                    assert(fonts[i].path@ == path);
                } else {
                    assert(fonts[fonts.len() - 1].path@ == path);
                }
            }
            if is_file_path(path) && names_path(fonts, path) {
                let i = choose|i: int| 0 <= i < fonts.len() && (#[trigger] fonts[i]).path@ == path;
                if i < before.len() {
                    assert(before[i].path@ == path);
                    assert(names_path(before, path));
                    assert(earlier.contains(path));
                    let k = choose|k: int| 0 <= k < earlier.len() && earlier[k] == path;
                    assert(out[k] == path);
                } else if earlier.contains(path) {
                    let k = choose|k: int| 0 <= k < earlier.len() && earlier[k] == path;
                    assert(out[k] == path);
                } else {
                    assert(out[out.len() - 1] == path);
                }
            }
        }
    }
}

/// The files are attached in the order in which the fonts first name them:
/// of two attached files, the one that is attached first is named by some
/// font before any font names the other.
pub proof fn lemma_attached_keep_first_use_order(fonts: Seq<AssFont>, x: int, y: int)
    requires
        0 <= x < y < attached_paths(fonts).len(),
    ensures
        named_before(fonts, attached_paths(fonts)[x], attached_paths(fonts)[y]),
    decreases fonts.len(),
{
    let out = attached_paths(fonts);
    if fonts.len() > 0 {
        let before = fonts.drop_last();
        let earlier = attached_paths(before);
        let last = fonts.last().path@;
        if y < earlier.len() {
            lemma_attached_keep_first_use_order(before, x, y);
            let i = choose|i: int|
                0 <= i < before.len() && (#[trigger] before[i]).path@ == earlier[x] && forall|
                    j: int,
                |
                    0 <= j <= i ==> (#[trigger] before[j]).path@ != earlier[y];
            assert(fonts[i].path@ == out[x]);
            assert forall|j: int| 0 <= j <= i implies (#[trigger] fonts[j]).path@ != out[y] by {
                assert(fonts[j] == before[j]);
            }
        } else {
            lemma_attached_are_the_named(before);
            assert(out[y] == last);
            assert(earlier[x] == out[x]);
            assert(earlier.contains(out[x]));
            assert(names_path(before, out[x]));
            let i = choose|i: int| 0 <= i < before.len() && (#[trigger] before[i]).path@ == out[x];
            assert(fonts[i].path@ == out[x]);
            assert forall|j: int| 0 <= j <= i implies (#[trigger] fonts[j]).path@ != out[y] by {
                if fonts[j].path@ == last {
                    assert(before[j].path@ == last);
                    assert(names_path(before, last));
                    assert(earlier.contains(last));
                }
            }
        }
    }
}

/// The arguments of the muxer: the script as input, the attachments, the
/// container as output, and whether an existing container may be replaced.
pub open spec fn mux_arguments(command: Seq<char>, name: Seq<char>, force: bool) -> Seq<
    Seq<char>,
> {
    seq!["-i"@, name] + space_split(command) + seq![
        name + ".mkv"@,
        if force {
            "-y"@
        } else {
            "-n"@
        },
    ]
}

/// What to tell the muxer, and which fonts it will have to do without.
pub struct MuxPlan {
    /// The arguments of the muxer, or why there are none.
    pub arguments: Result<Vec<String>, String>,
    /// The families of the fonts that were not found.
    pub missing: Vec<String>,
}

/// Is `path` one of `paths`?
pub fn holds_path(paths: &Vec<Vec<char>>, path: &Vec<char>) -> (b: bool)
    ensures
        b == rows(paths@).contains(path@),
{
    let mut i: usize = 0;
    while i < paths.len()
        invariant
            i <= paths.len(),
            forall|j: int| 0 <= j < i ==> rows(paths@)[j] != path@,
        decreases paths.len() - i,
    {
        if same_chars(&paths[i], path) {
            proof {
                assert(rows(paths@)[i as int] == path@);
            }
            return true;
        }
        i += 1;
    }
    false
}

/// Plans the muxing of the script `name` with the fonts of `file`: every
/// distinct font file is attached once, in the order in which the fonts first
/// name it. There are no arguments where not one file can be attached.
pub fn mux_plan(file: &AssFile, name: &str, force: bool, windows: bool) -> (plan: MuxPlan)
    ensures
        texts(plan.missing@) == missing_families(file.fonts@),
        match plan.arguments {
            Ok(args) => {
                &&& attached_paths(file.fonts@).len() > 0
                &&& texts(args@) == mux_arguments(
                    attach_command(attached_paths(file.fonts@), windows),
                    name@,
                    force,
                )
            },
            Err(message) => {
                &&& attached_paths(file.fonts@).len() == 0
                &&& message@ == "None of the required fonts could be found!"@
            },
        },
{
    let sentinel = "Nothing found.".to_owned();
    let mut attached: Vec<Vec<char>> = Vec::new();
    let mut command = String::new();
    let mut missing: Vec<String> = Vec::new();
    let mut i: usize = 0;
    proof {
        assert(texts(missing@) == Seq::<Seq<char>>::empty());
        assert(rows(attached@) == Seq::<Seq<char>>::empty());
    }
    while i < file.fonts.len()
        invariant
            i <= file.fonts.len(),
            sentinel@ == not_found(),
            attached.len() <= i,
            rows(attached@) == attached_paths(file.fonts@.take(i as int)),
            command@ == attach_command(rows(attached@), windows),
            texts(missing@) == missing_families(file.fonts@.take(i as int)),
        decreases file.fonts.len() - i,
    {
        let font = &file.fonts[i];
        proof {
            let upto = file.fonts@.take(i + 1);
            assert(upto.drop_last() == file.fonts@.take(i as int));
            assert(upto.last() == *font);
        }
        let path = chars_of(font.path.as_str());
        if font.path == sentinel {
            let family = font.facename.clone();
            proof {
                assert(texts(missing@.push(family)) == texts(missing@).push(family@));
            }
            missing.push(family);
        } else if path.len() > 0 && !holds_path(&attached, &path) {
            let bare = string_of(&remove_char(&path, '"'));
            let lower = lowercased(bare.as_str());
            let text = attachment(font.path.as_str(), lower.as_str(), attached.len() + 1, windows);
            command.append(text.as_str());
            proof {
                let paths = rows(attached@);
                assert(rows(attached@.push(path)) == paths.push(path@));
                assert(paths.push(path@).drop_last() == paths);
            }
            attached.push(path);
        }
        i += 1;
    }
    proof {
        assert(file.fonts@.take(file.fonts.len() as int) == file.fonts@);
    }
    if attached.len() == 0 {
        return MuxPlan {
            arguments: Err("None of the required fonts could be found!".to_owned()),
            missing,
        };
    }
    let words = controlled_space_splitting(command);
    let mut args: Vec<String> = Vec::new();
    args.push("-i".to_owned());
    args.push(name.to_owned());
    let ghost head = texts(args@);
    proof {
        assert(head == seq!["-i"@, name@]);
    }
    let mut k: usize = 0;
    while k < words.len()
        invariant
            k <= words.len(),
            texts(args@) == head + texts(words@).take(k as int),
        decreases words.len() - k,
    {
        let word = words[k].clone();
        proof {
            assert(texts(args@.push(word)) == texts(args@).push(word@));
            assert(texts(words@).take(k + 1) == texts(words@).take(k as int).push(word@));
        }
        args.push(word);
        k += 1;
    }
    proof {
        assert(texts(words@).take(words.len() as int) == texts(words@));
    }
    let mut output = name.to_owned();
    output.append(".mkv");
    let flag = if force {
        "-y".to_owned()
    } else {
        "-n".to_owned()
    };
    proof {
        let body = head + texts(words@);
        assert(texts(args@.push(output).push(flag)) == body.push(output@).push(flag@));
        assert(body.push(output@).push(flag@) == body + seq![output@, flag@]);
    }
    args.push(output);
    args.push(flag);
    MuxPlan { arguments: Ok(args), missing }
}

} // verus!
