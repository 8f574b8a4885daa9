use fa_tool::error::Error;
use fa_tool::font::{AssFile, AssFont};
use fa_tool::resolve::{resolve, resolve_event};
use fa_tool::style::build_styles;

fn script(styles: &[&str], events: &[&str]) -> String {
    let mut text = String::from("[Script Info]\nTitle: sample\n\n[V4+ Styles]\n");
    text.push_str("Format: Name, Fontname, Fontsize, PrimaryColour, SecondaryColour, OutlineColour, BackColour, Bold, Italic\n");
    for s in styles {
        text.push_str(s);
        text.push('\n');
    }
    text.push_str("\n[Events]\nFormat: Layer, Start, End, Style, Name, MarginL, MarginR, MarginV, Effect, Text\n");
    for e in events {
        text.push_str(e);
        text.push('\n');
    }
    text
}

fn triples(fonts: &[AssFont]) -> Vec<(String, bool, bool)> {
    fonts.iter().map(|f| (f.facename.clone(), f.bold, f.italic)).collect()
}

fn triple(family: &str, bold: bool, italic: bool) -> (String, bool, bool) {
    (family.to_string(), bold, italic)
}

fn lines(v: &[&str]) -> Vec<String> {
    v.iter().map(|s| s.to_string()).collect()
}

const DEFAULT_ARIAL: &str = "Style: Default,Arial,20,&H00FFFFFF,&H000000FF,&H00000000,&H00000000,0,0,0,0,100,100,0,0,1,2,2,2,10,10,10,1";
const TITLE_TIMES: &str = "Style: Title,Times,20,&H00FFFFFF,&H000000FF,&H00000000,&H00000000,-1,-1,0,0,100,100,0,0,1,2,2,2,10,10,10,1";

#[test]
fn end_to_end_two_events() {
    let text = script(
        &[DEFAULT_ARIAL],
        &[
            "Dialogue: 0,0:00:01.00,0:00:02.00,Default,,0,0,0,,Hello",
            "Dialogue: 0,0:00:03.00,0:00:04.00,Default,,0,0,0,,{\\b1\\fnCourier}Hi",
        ],
    );
    let file = AssFile::get_fonts(text).unwrap();
    assert_eq!(
        triples(&file.fonts),
        vec![triple("Arial", false, false), triple("Courier", true, false)]
    );
    assert!(file.fonts.iter().all(|f| f.path.is_empty()));
}

#[test]
fn same_text_twice_gives_the_same_fonts() {
    let text = script(
        &[DEFAULT_ARIAL, TITLE_TIMES],
        &[
            "Dialogue: 0,0:00:01.00,0:00:02.00,Title,,0,0,0,,{\\i0}A",
            "Dialogue: 0,0:00:01.00,0:00:02.00,Default,,0,0,0,,B",
            "Dialogue: 0,0:00:01.00,0:00:02.00,Title,,0,0,0,,C",
        ],
    );
    let first = AssFile::get_fonts(text.clone()).unwrap();
    let second = AssFile::get_fonts(text).unwrap();
    assert_eq!(triples(&first.fonts), triples(&second.fonts));
    assert_eq!(
        triples(&first.fonts),
        vec![
            triple("Times", true, false),
            triple("Arial", false, false),
            triple("Times", true, true)
        ]
    );
}

#[test]
fn no_variant_stands_twice() {
    let text = script(
        &[DEFAULT_ARIAL],
        &[
            "Dialogue: 0,0:00:01.00,0:00:02.00,Default,,0,0,0,,one",
            "Dialogue: 0,0:00:01.00,0:00:02.00,Default,,0,0,0,,{\\b1}two",
            "Dialogue: 0,0:00:01.00,0:00:02.00,Default,,0,0,0,,three",
            "Dialogue: 0,0:00:01.00,0:00:02.00,Default,,0,0,0,,{\\b1}four",
            "Dialogue: 0,0:00:01.00,0:00:02.00,Default,,0,0,0,,{\\b1}{\\b0}five",
        ],
    );
    let file = AssFile::get_fonts(text).unwrap();
    assert_eq!(
        triples(&file.fonts),
        vec![triple("Arial", false, false), triple("Arial", true, false)]
    );
}

#[test]
fn first_use_decides_the_order() {
    let styles = build_styles(&lines(&[DEFAULT_ARIAL, TITLE_TIMES]));
    let events = lines(&[
        "Dialogue: 0,0:00:01.00,0:00:02.00,Title,,0,0,0,,x",
        "Dialogue: 0,0:00:01.00,0:00:02.00,Default,,0,0,0,,x",
        "Dialogue: 0,0:00:01.00,0:00:02.00,Title,,0,0,0,,x",
        "Dialogue: 0,0:00:01.00,0:00:02.00,Default,,0,0,0,,{\\fnVerdana}x",
        "Dialogue: 0,0:00:01.00,0:00:02.00,Default,,0,0,0,,x",
    ]);
    let fonts = resolve(&styles, &events).unwrap();
    assert_eq!(
        triples(&fonts),
        vec![
            triple("Times", true, true),
            triple("Arial", false, false),
            triple("Verdana", false, false)
        ]
    );
}

#[test]
fn plain_line_keeps_the_style() {
    let styles = build_styles(&lines(&[DEFAULT_ARIAL, TITLE_TIMES]));
    let font = resolve_event(&styles, "Dialogue: 0,0:00:01.00,0:00:02.00,Title,,0,0,0,,no braces \\b1 here");
    assert_eq!(triples(&[font]), vec![triple("Times", true, true)]);
}

#[test]
fn bold_on_then_off_is_off() {
    let styles = build_styles(&lines(&[DEFAULT_ARIAL]));
    let font = resolve_event(&styles, "Dialogue: 0,0:00:01.00,0:00:02.00,Default,,0,0,0,,{\\b1}{\\b0}text");
    assert!(!font.bold);
    assert_eq!(triples(&[font]), vec![triple("Arial", false, false)]);
    let font = resolve_event(&styles, "Dialogue: 0,0:00:01.00,0:00:02.00,Default,,0,0,0,,{\\b0}{\\b1}text");
    assert!(font.bold);
    let font = resolve_event(&styles, "Dialogue: 0,0:00:01.00,0:00:02.00,Default,,0,0,0,,{\\i0\\i1}text");
    assert!(font.italic);
}

#[test]
fn font_override_keeps_the_flags() {
    let styles = build_styles(&lines(&[TITLE_TIMES]));
    let font = resolve_event(&styles, "Dialogue: 0,0:00:01.00,0:00:02.00,Title,,0,0,0,,{\\fnArial}text");
    assert_eq!(font.facename, "Arial");
    assert!(font.bold);
    assert!(font.italic);
    assert_eq!(font.path, "");
}

#[test]
fn unrecognized_directive_changes_nothing() {
    let styles = build_styles(&lines(&[TITLE_TIMES]));
    let font = resolve_event(&styles, "Dialogue: 0,0:00:01.00,0:00:02.00,Title,,0,0,0,,{\\blah123}text");
    assert_eq!(triples(&[font]), vec![triple("Times", true, true)]);
    let font = resolve_event(&styles, "Dialogue: 0,0:00:01.00,0:00:02.00,Title,,0,0,0,,{\\b0\\blah123\\pos(1,2)}text");
    assert_eq!(triples(&[font]), vec![triple("Times", false, true)]);
}

#[test]
fn missing_style_section() {
    let text = "Title: nothing\nStyle: Default,Arial\nDialogue: 0,0,0,Default,,0,0,0,,x\n".to_string();
    assert!(matches!(AssFile::get_fonts(text), Err(Error::MissingStylesInfo)));
    let text = "[Script Info]\n[Events]\nDialogue: 0,0,0,Default,,0,0,0,,x\n".to_string();
    assert!(matches!(AssFile::get_fonts(text), Err(Error::MissingStylesInfo)));
    assert!(matches!(AssFile::get_fonts(String::new()), Err(Error::MissingStylesInfo)));
}

#[test]
fn events_with_only_comments_and_format() {
    let text = script(
        &[DEFAULT_ARIAL],
        &["Comment: 0,0:00:01.00,0:00:02.00,Default,,0,0,0,,{\\b1}note", ""],
    );
    assert!(matches!(AssFile::get_fonts(text), Err(Error::MissingEvents)));
}

#[test]
fn styles_without_events_section() {
    let text = format!("[V4+ Styles]\n{}\n", DEFAULT_ARIAL);
    assert!(matches!(AssFile::get_fonts(text), Err(Error::MissingEvents)));
}

#[test]
fn no_events_resolve_to_failure() {
    let styles = build_styles(&lines(&[DEFAULT_ARIAL]));
    assert!(matches!(resolve(&styles, &Vec::new()), Err(Error::FailedParsingFonts)));
    assert!(matches!(
        AssFile::trim_to_fonts(lines(&[DEFAULT_ARIAL]), Vec::new()),
        Err(Error::FailedParsingFonts)
    ));
}

#[test]
fn unknown_style_falls_back_to_the_first() {
    let styles = build_styles(&lines(&[DEFAULT_ARIAL, TITLE_TIMES]));
    let font = resolve_event(&styles, "Dialogue: 0,0:00:01.00,0:00:02.00,Nowhere,,0,0,0,,x");
    assert_eq!(triples(&[font]), vec![triple("Arial", false, false)]);
    let font = resolve_event(&styles, "short line");
    assert_eq!(triples(&[font]), vec![triple("Arial", false, false)]);
}

#[test]
fn empty_table_gives_the_plain_variant() {
    let font = resolve_event(&Vec::new(), "Dialogue: 0,0:00:01.00,0:00:02.00,Default,,0,0,0,,{\\i1}x");
    assert_eq!(triples(&[font]), vec![triple("", false, true)]);
}

#[test]
fn last_style_of_a_name_wins() {
    let styles = build_styles(&lines(&["Style: A,Arial,1,2,3,4,5,0,0", "Style: A,Times,1,2,3,4,5,1,0"]));
    let font = resolve_event(&styles, "Dialogue: 0,0,0,A,,0,0,0,,x");
    assert_eq!(triples(&[font]), vec![triple("Times", true, false)]);
}

#[test]
fn style_name_is_the_fourth_field() {
    let styles = build_styles(&lines(&[DEFAULT_ARIAL, TITLE_TIMES]));
    let font = resolve_event(&styles, "Dialogue: 0,0:00:01.00,0:00:02.00,Title");
    assert_eq!(triples(&[font]), vec![triple("Times", true, true)]);
}

#[test]
fn error_messages() {
    assert_eq!(Error::MissingEvents.message(), "Missing events");
    assert_eq!(Error::MissingScriptInfo.message(), "Missing script info");
    assert_eq!(Error::MissingStylesInfo.message(), "Missing styles info");
    assert_eq!(Error::Syntax.message(), "Invalid syntax");
    assert_eq!(Error::FailedParsingFonts.message(), "Failed to parse font names");
    assert_eq!(Error::custom("broken").message(), "broken");
    assert!(matches!(Error::custom("broken"), Error::Message(m) if m == "broken"));
}
