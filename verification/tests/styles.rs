use fa_tool::font::{AssFont, AssStyle};
use fa_tool::style::{build_styles, parse_style};

fn parts(s: &AssStyle) -> (String, String, bool, bool, String) {
    (s.name.clone(), s.font.facename.clone(), s.font.bold, s.font.italic, s.font.path.clone())
}

fn expect(name: &str, family: &str, bold: bool, italic: bool) -> (String, String, bool, bool, String) {
    (name.to_string(), family.to_string(), bold, italic, String::new())
}

#[test]
fn style_fields_by_position() {
    let s = parse_style("Style: Default,Arial,20,&H00FFFFFF,&H000000FF,&H00000000,&H00000000,0,0,0,0,100,100,0,0,1,2,2,2,10,10,10,1");
    assert_eq!(parts(&s), expect("Default", "Arial", false, false));
    let s = parse_style("Style: Sign,Comic Sans MS,20,1,2,3,4,-1,0,0");
    assert_eq!(parts(&s), expect("Sign", "Comic Sans MS", true, false));
    let s = parse_style("Style: Sign,Georgia,20,1,2,3,4,0,1,0");
    assert_eq!(parts(&s), expect("Sign", "Georgia", false, true));
    let s = parse_style("Style: Sign,Georgia,20,1,2,3,4,1,1");
    assert_eq!(parts(&s), expect("Sign", "Georgia", true, true));
}

#[test]
fn short_style_lines_are_read_leniently() {
    assert_eq!(parts(&parse_style("")), expect("", "", false, false));
    assert_eq!(parts(&parse_style("Style: ")), expect("", "", false, false));
    assert_eq!(parts(&parse_style("Style: OnlyName")), expect("OnlyName", "", false, false));
    assert_eq!(parts(&parse_style("Style: N,F")), expect("N", "F", false, false));
    assert_eq!(parts(&parse_style("Style: N,F,1,2,3,4,5,")), expect("N", "F", false, false));
    assert_eq!(parts(&parse_style("Style: N,F,1,2,3,4,5,1")), expect("N", "F", true, false));
    assert_eq!(parts(&parse_style("Style: N,F,1,2,3,4,5,,x")), expect("N", "F", false, true));
    assert_eq!(parts(&parse_style(",,,,,,,,")), expect("", "", false, false));
}

#[test]
fn flag_goes_by_the_last_character() {
    assert_eq!(parts(&parse_style("N,F,1,2,3,4,5,10,01")), expect("N", "F", false, true));
    assert_eq!(parts(&parse_style("N,F,1,2,3,4,5,-1,00")), expect("N", "F", true, false));
}

#[test]
fn introducing_word_is_stripped() {
    assert_eq!(parts(&parse_style("N,F")), expect("N", "F", false, false));
    assert_eq!(parts(&parse_style("Style: Style: N,F")), expect("N", "F", false, false));
    assert_eq!(parts(&parse_style("Style:N,F")), expect("Style:N", "F", false, false));
    assert_eq!(parts(&parse_style(" Style: N,F")), expect(" Style: N", "F", false, false));
}

#[test]
fn table_keeps_the_order_of_the_lines() {
    let lines = vec!["Style: B,Times,1,2,3,4,5,1,0".to_string(), "Style: A,Arial".to_string(), "Style: B,Courier".to_string()];
    let styles = build_styles(&lines);
    let got: Vec<_> = styles.iter().map(parts).collect();
    assert_eq!(
        got,
        vec![expect("B", "Times", true, false), expect("A", "Arial", false, false), expect("B", "Courier", false, false)]
    );
    assert!(build_styles(&Vec::new()).is_empty());
}

#[test]
fn fonts_are_equal_by_their_variant() {
    let a = AssFont::new("Arial".to_string(), true, false);
    let mut b = a.clone();
    assert!(a == b);
    b.path = "/fonts/arial.ttf".to_string();
    assert!(a == b);
    b.italic = true;
    assert!(a != b);
    assert!(a != AssFont::new("arial".to_string(), true, false));
    assert!(a != AssFont::new("Arial".to_string(), false, false));
    let s = AssStyle { name: "S".to_string(), font: a.clone() };
    let t = s.clone();
    assert!(s == t);
    assert!(s != AssStyle { name: "T".to_string(), font: a });
}

#[test]
fn font_set_is_copied_whole() {
    let file = fa_tool::font::AssFile {
        fonts: vec![AssFont::new("A".to_string(), true, false), AssFont::new("B".to_string(), false, true)],
    };
    let copy = file.clone();
    assert_eq!(copy.fonts.len(), 2);
    assert!(copy.fonts[0] == file.fonts[0] && copy.fonts[1] == file.fonts[1]);
    assert_eq!(copy.fonts[1].facename, "B");
    assert_eq!(copy.fonts[0].path, "");
}
