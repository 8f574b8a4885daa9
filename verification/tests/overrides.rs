use fa_tool::tags::{classify_tag, get_tags, tokenize, OverrideDirective};

fn tags(line: &str) -> Option<Vec<String>> {
    get_tags(line.to_string())
}

fn some(v: &[&str]) -> Option<Vec<String>> {
    Some(v.iter().map(|s| s.to_string()).collect())
}

#[test]
fn line_without_block_has_no_tags() {
    assert_eq!(tags(""), None);
    assert_eq!(tags("plain \\b1 text"), None);
    assert_eq!(tags("never {closed \\b1"), None);
    assert_eq!(tags("} stray"), None);
    assert_eq!(tags("}{"), None);
}

#[test]
fn empty_block_has_no_directive() {
    assert_eq!(tags("{}"), some(&[]));
    assert_eq!(tags("a{}b{}c"), some(&[]));
    assert_eq!(tags("{\\}"), some(&[]));
    assert_eq!(tags("{\\\\\\}"), some(&[]));
}

#[test]
fn one_token_for_each_directive() {
    assert_eq!(
        tags("Dialogue: 0,0:05,0:09,Default,,0,0,0,,{\\b1\\fnCourier}Bye"),
        some(&["\\b1", "\\fnCourier"])
    );
    assert_eq!(tags("{\\blah123}Hi"), some(&["\\blah123"]));
    assert_eq!(tags("{\\fnComic Sans MS\\i1}Hi"), some(&["\\fnComic Sans MS", "\\i1"]));
    assert_eq!(tags("{\\b1}"), some(&["\\b1"]));
    assert_eq!(
        tags("{\\b1\\fnCourier New\\i0}text"),
        some(&["\\b1", "\\fnCourier New", "\\i0"])
    );
}

#[test]
fn backslash_that_nothing_follows_starts_no_directive() {
    assert_eq!(tags("{\\i1\\}"), some(&["\\i1"]));
    assert_eq!(tags("{\\b1\\\\i1}"), some(&["\\b1", "\\i1"]));
    assert_eq!(tags("{\\\\b0}"), some(&["\\b0"]));
}

#[test]
fn text_before_the_first_backslash_is_a_directive() {
    assert_eq!(tags("{b1}"), some(&["\\b1"]));
    assert_eq!(tags("{note\\i1}"), some(&["\\note", "\\i1"]));
}

#[test]
fn blocks_are_read_from_left_to_right() {
    assert_eq!(tags("{\\b1}x{\\i1}y"), some(&["\\b1", "\\i1"]));
    assert_eq!(tags("x{\\b1}y{\\b0}z"), some(&["\\b1", "\\b0"]));
    assert_eq!(tags("{\\b1}}{\\i1}"), some(&["\\b1", "\\i1"]));
    assert_eq!(tags("{\\b1}{\\i1"), some(&["\\b1"]));
    assert_eq!(tags("{}{\\b1}{}"), some(&["\\b1"]));
}

#[test]
fn block_runs_to_the_next_closing_brace() {
    assert_eq!(tags("{\\fnA{B}C}"), some(&["\\fnA{B"]));
}

#[test]
fn flags_are_recognised_as_a_whole() {
    assert!(matches!(classify_tag("\\b1"), OverrideDirective::BoldOn));
    assert!(matches!(classify_tag("\\b0"), OverrideDirective::BoldOff));
    assert!(matches!(classify_tag("\\i1"), OverrideDirective::ItalicOn));
    assert!(matches!(classify_tag("\\i0"), OverrideDirective::ItalicOff));
    for raw in ["\\b10", "\\b", "\\b2", "\\b700", "\\B1", "\\i", "\\i11", "\\I0", "b1", "\\", "", "\\blah123", "\\bord2", "\\fs20", "\\Fn", "\\f", "fnArial"] {
        assert!(
            matches!(classify_tag(raw), OverrideDirective::Unrecognized(ref kept) if kept == raw),
            "for {:?}",
            raw
        );
    }
}

#[test]
fn font_name_is_the_rest_of_the_directive() {
    assert!(matches!(classify_tag("\\fnArial"), OverrideDirective::SetFont(ref n) if n == "Arial"));
    assert!(matches!(classify_tag("\\fnMS Gothic"), OverrideDirective::SetFont(ref n) if n == "MS Gothic"));
    assert!(matches!(classify_tag("\\fn"), OverrideDirective::SetFont(ref n) if n.is_empty()));
    assert!(matches!(classify_tag("\\fnfn"), OverrideDirective::SetFont(ref n) if n == "fn"));
    assert!(matches!(classify_tag("\\fn@Meiryo"), OverrideDirective::SetFont(ref n) if n == "@Meiryo"));
}

#[test]
fn line_is_tokenized_in_order() {
    assert!(tokenize("no block").is_none());
    let ds = tokenize("Dialogue: 0,0,0,Default,,0,0,0,,{\\b1\\blah123}x{\\fnCourier\\i0}").unwrap();
    assert_eq!(ds.len(), 4);
    assert!(matches!(ds[0], OverrideDirective::BoldOn));
    assert!(matches!(ds[1], OverrideDirective::Unrecognized(ref r) if r == "\\blah123"));
    assert!(matches!(ds[2], OverrideDirective::SetFont(ref n) if n == "Courier"));
    assert!(matches!(ds[3], OverrideDirective::ItalicOff));
    assert!(tokenize("{}").unwrap().is_empty());
    assert!(tokenize("{\\}").unwrap().is_empty());
}
