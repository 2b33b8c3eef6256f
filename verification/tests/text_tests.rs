use script_2_script::{push_run, split_newlines, split_tokens, FontFamily, FontSource, StyleFlags, StyledText, TextRun};

fn style(bold: bool, italic: bool, underline: bool) -> StyleFlags {
    StyleFlags { bold, italic, underline }
}

#[test]
fn markdown_plain_text_is_one_run() {
    let st = StyledText::from_markdown("hello world");
    assert_eq!(st.runs.len(), 1);
    assert_eq!(st.runs[0].text, "hello world");
    assert_eq!(st.runs[0].style, style(false, false, false));
}

#[test]
fn markdown_empty_input_has_no_runs() {
    let st = StyledText::from_markdown("");
    assert!(st.runs.is_empty());
}

#[test]
fn markdown_bold_toggles() {
    let st = StyledText::from_markdown("**bold** text");
    assert_eq!(st.runs.len(), 2);
    assert_eq!(st.runs[0].text, "bold");
    assert_eq!(st.runs[0].style, style(true, false, false));
    assert_eq!(st.runs[1].text, " text");
    assert_eq!(st.runs[1].style, style(false, false, false));
}

#[test]
fn markdown_italic_single_star() {
    let st = StyledText::from_markdown("a*b*c");
    assert_eq!(st.runs.len(), 3);
    assert_eq!(st.runs[0].text, "a");
    assert_eq!(st.runs[0].style, style(false, false, false));
    assert_eq!(st.runs[1].text, "b");
    assert_eq!(st.runs[1].style, style(false, true, false));
    assert_eq!(st.runs[2].text, "c");
    assert_eq!(st.runs[2].style, style(false, false, false));
}

#[test]
fn markdown_underline_double_underscore() {
    let st = StyledText::from_markdown("__u__ v");
    assert_eq!(st.runs.len(), 2);
    assert_eq!(st.runs[0].text, "u");
    assert_eq!(st.runs[0].style, style(false, false, true));
    assert_eq!(st.runs[1].text, " v");
    assert_eq!(st.runs[1].style, style(false, false, false));
}

#[test]
fn markdown_nested_styles_combine() {
    let st = StyledText::from_markdown("**b*bi*b**");
    assert_eq!(st.runs.len(), 3);
    assert_eq!(st.runs[0].text, "b");
    assert_eq!(st.runs[0].style, style(true, false, false));
    assert_eq!(st.runs[1].text, "bi");
    assert_eq!(st.runs[1].style, style(true, true, false));
    assert_eq!(st.runs[2].text, "b");
    assert_eq!(st.runs[2].style, style(true, false, false));
}

#[test]
fn markdown_unterminated_marker_styles_rest() {
    let st = StyledText::from_markdown("**tail");
    assert_eq!(st.runs.len(), 1);
    assert_eq!(st.runs[0].text, "tail");
    assert_eq!(st.runs[0].style, style(true, false, false));
}

#[test]
fn font_family_default_has_only_regular() {
    let f = FontFamily::default();
    assert_eq!(f.regular, FontSource::Default);
    assert!(f.bold.is_none());
    assert!(f.italic.is_none());
    assert!(f.bold_italic.is_none());
}

#[test]
fn font_resolve_prefers_most_specific_variant() {
    let f = FontFamily {
        regular: FontSource::Path(String::from("r.ttf")),
        bold: Some(FontSource::Path(String::from("b.ttf"))),
        italic: Some(FontSource::Path(String::from("i.ttf"))),
        bold_italic: Some(FontSource::Path(String::from("bi.ttf"))),
    };
    assert_eq!(*f.resolve(style(true, true, false)), FontSource::Path(String::from("bi.ttf")));
    assert_eq!(*f.resolve(style(true, false, false)), FontSource::Path(String::from("b.ttf")));
    assert_eq!(*f.resolve(style(false, true, false)), FontSource::Path(String::from("i.ttf")));
    assert_eq!(*f.resolve(style(false, false, true)), FontSource::Path(String::from("r.ttf")));
}

#[test]
fn font_resolve_falls_back_towards_regular() {
    let f = FontFamily {
        regular: FontSource::Path(String::from("r.ttf")),
        bold: Some(FontSource::Path(String::from("b.ttf"))),
        italic: None,
        bold_italic: None,
    };
    // Bold italic with no bold-italic variant falls back to bold.
    assert_eq!(*f.resolve(style(true, true, false)), FontSource::Path(String::from("b.ttf")));
    // Italic with no italic variant falls back to regular.
    assert_eq!(*f.resolve(style(false, true, false)), FontSource::Path(String::from("r.ttf")));
}

#[test]
fn split_newlines_keeps_empty_pieces() {
    assert_eq!(split_newlines("a\nb"), vec!["a", "b"]);
    assert_eq!(split_newlines("a\n"), vec!["a", ""]);
    assert_eq!(split_newlines("\n\n"), vec!["", "", ""]);
    assert_eq!(split_newlines(""), vec![""]);
}

#[test]
fn split_tokens_groups_whitespace_runs() {
    assert_eq!(split_tokens("ab  cd"), vec!["ab", "  ", "cd"]);
    assert_eq!(split_tokens(" lead"), vec![" ", "lead"]);
    assert_eq!(split_tokens("one"), vec!["one"]);
    assert_eq!(split_tokens(""), Vec::<String>::new());
}

#[test]
fn push_run_merges_matching_styles() {
    let mut runs: Vec<TextRun> = Vec::new();
    push_run(&mut runs, style(false, false, false), "a");
    push_run(&mut runs, style(false, false, false), "b");
    push_run(&mut runs, style(true, false, false), "c");
    push_run(&mut runs, style(true, false, false), "");
    assert_eq!(runs.len(), 2);
    assert_eq!(runs[0].text, "ab");
    assert_eq!(runs[0].style, style(false, false, false));
    assert_eq!(runs[1].text, "c");
    assert_eq!(runs[1].style, style(true, false, false));
}
