use mc_tui::md::render::render_md;
use mc_tui::md::inline::{parse_inline, push_frag, Frag};
use mc_tui::md::{MdLine, MdStyle, MdTone};
use unicode_width::UnicodeWidthStr;

fn plain(lines: &[MdLine]) -> Vec<String> {
    lines
        .iter()
        .map(|line| {
            line.spans
                .iter()
                .map(|s| s.text.to_string())
                .collect::<Vec<_>>()
                .join("")
        })
        .collect()
}

#[test]
fn renders_headings_and_emphasis() {
    let md = "# Title\n\nSome **bold** and *italic* text with `code`.";
    let lines = render_md(md, 40);
    let text = plain(&lines);
    assert_eq!(text[0], "Title");
    let st = lines[0].spans[0].style;
    assert!(
        st.bold && !st.italic && !st.underlined && !st.crossed && st.tone == MdTone::Heading,
        "headings should be bold"
    );
    assert!(text.iter().any(|l| l.contains("bold")));
    assert!(text.iter().any(|l| l.contains("code")));
}

#[test]
fn wraps_long_paragraphs() {
    let md = "word word word word word word word word word word word word word word word";
    let lines = render_md(md, 12);
    let text = plain(&lines);
    for line in &text {
        assert!(line.chars().count() <= 12, "line too wide: {line:?}");
    }
    assert!(text.len() > 1);
}

#[test]
fn renders_lists_and_code() {
    let md = "- one\n- two\n\n```\ncode line\n```\n";
    let lines = render_md(md, 40);
    let text = plain(&lines);
    assert!(text.iter().any(|l| l.contains("•")));
    assert!(text.iter().any(|l| l.contains("code line")));
}

#[test]
fn strips_html() {
    let md = "hello<br>world";
    let lines = render_md(md, 40);
    let text = plain(&lines);
    assert!(text.len() >= 2, "br should create a line break");
    assert!(!text.iter().any(|l| l.contains('<')), "tags must be stripped");
}

#[test]
fn respects_wide_chars() {
    let md = "日志日志日志日志日志日志日志日志日志日志日志日志日志日志";
    let lines = render_md(md, 16);
    let text = plain(&lines);
    for line in &text {
        let w = line.as_str().width();
        assert!(w <= 16, "line too wide: {line:?} ({w} cols)");
    }
}

#[test]
fn paragraph_words_wrap_exactly() {
    let lines = render_md("aa bb cc dd", 5);
    assert_eq!(plain(&lines), vec!["aa bb", "cc dd"]);
}

#[test]
fn inline_styles_are_separate_spans() {
    let lines = render_md("x **b** *i* ~~s~~ `c` [l](u)", 80);
    assert_eq!(lines.len(), 1);
    let spans = &lines[0].spans;
    let find = |t: &str| spans.iter().find(|s| s.text.trim() == t).map(|s| s.style);
    let b = find("b").expect("bold span");
    assert!(b.bold && !b.italic && b.tone == MdTone::Body);
    let i = find("i").expect("italic span");
    assert!(i.italic && !i.bold);
    let s = find("s").expect("struck span");
    assert!(s.crossed);
    let c = find("c").expect("code span");
    assert_eq!(c.tone, MdTone::Code);
    let l = find("l").expect("link span");
    assert!(l.underlined);
    assert_eq!(plain(&lines)[0], "x b i s c l");
}

#[test]
fn rules_fill_the_width() {
    let lines = render_md("---", 7);
    assert_eq!(plain(&lines), vec!["───────"]);
    assert_eq!(lines[0].spans[0].style.tone, MdTone::Rule);
}

#[test]
fn ordered_lists_are_numbered() {
    let lines = render_md("1. first\n2. second", 40);
    assert_eq!(plain(&lines), vec!["1. first", "2. second"]);
    assert_eq!(lines[0].spans[0].style.tone, MdTone::Marker);
}

#[test]
fn blockquotes_get_a_gutter() {
    let lines = render_md("> quoted text\n> > nested", 40);
    assert_eq!(plain(&lines), vec!["│ quoted text", "│ nested"]);
}

#[test]
fn code_blocks_are_cut_to_the_width() {
    let lines = render_md("```\nabcdefghij\n```", 4);
    assert_eq!(plain(&lines), vec!["abcd"]);
    assert_eq!(lines[0].spans[0].style.tone, MdTone::CodeBlock);
    let indented = render_md("    let x = 1;\n    let y = 2;", 40);
    assert_eq!(plain(&indented), vec!["let x = 1;", "let y = 2;"]);
}

#[test]
fn tables_lay_out_columns() {
    let lines = render_md("| A | B |\n|---|---|\n| 1 | 2 |", 12);
    let text = plain(&lines);
    assert_eq!(text.len(), 3);
    assert!(text[0].starts_with('A'));
    assert!(text[1].starts_with('─'));
    assert!(text[2].starts_with('1'));
}

#[test]
fn trailing_blank_lines_are_dropped_and_blocks_are_separated() {
    let lines = render_md("# H\n\ntext\n\n\n", 40);
    assert_eq!(plain(&lines), vec!["H", "", "text"]);
    assert!(render_md("", 40).is_empty());
}

#[test]
fn a_pipe_outside_a_table_is_plain_text() {
    assert_eq!(plain(&render_md("a | b", 40)), vec!["a | b"]);
    assert_eq!(plain(&render_md("x\na | b\ny", 40)), vec!["x", "a | b y"]);
    assert_eq!(plain(&render_md("a b", 40)), vec!["a b"]);
}

#[test]
fn every_block_fits_a_roomy_width() {
    let md = "# A heading that is long enough to wrap around\n\n\
              > a quoted line that is long enough to wrap around twice\n\n\
              - first item with quite a few words in it\n- second item\n\n\
              1. one\n2. two two two two two two two two\n\n\
              | Col A | Col B | Col C |\n|---|---|---|\n| 1 | 22222222222222 | 3 |\n\n\
              ```\na very long line of code that will not wrap at all\n```\n\n\
              ---\n\nplain 日志日志日志日志日志 words";
    for width in [16usize, 20, 33] {
        let lines = render_md(md, width);
        for line in plain(&lines) {
            let w = line.as_str().width();
            assert!(w <= width, "line too wide at {width}: {line:?} ({w} cols)");
        }
    }
}

#[test]
fn crowded_tables_are_cut_at_the_width() {
    // Five columns need at least 23 columns; at width 10 the rows are cut.
    let lines = plain(&render_md("|a|b|c|d|e|\n|-|-|-|-|-|\n|1|2|3|4|5|", 10));
    assert_eq!(lines.len(), 3);
    assert_eq!(lines[1], "───  ───  ");
    assert_eq!(lines[2], "1  2  3  4");
    for line in &lines {
        assert!(line.as_str().width() <= 10, "line too wide: {line:?}");
    }
}

#[test]
fn long_numbered_lists_and_narrow_quotes_fit_when_they_have_room() {
    let mut md = String::new();
    for i in 1..=12 {
        md.push_str(&format!("{i}. item\n"));
    }
    for line in plain(&render_md(&md, 20)) {
        assert!(line.as_str().width() <= 20, "line too wide: {line:?}");
    }
    assert_eq!(plain(&render_md(&md, 20))[11], "12. item");
    assert_eq!(plain(&render_md("> a", 3)), vec!["│ a"]);
    // A glyph wider than the room beside the gutter is cut off.
    assert_eq!(plain(&render_md("> 日", 3)), vec!["│ "]);
}

#[test]
fn tenth_items_indent_under_their_wider_marker() {
    let mut md = String::new();
    for _ in 1..=9 {
        md.push_str("1. x\n");
    }
    md.push_str("10. aaaaaaa\n");
    let lines = plain(&render_md(&md, 10));
    for line in &lines {
        assert!(line.as_str().width() <= 10, "line too wide: {line:?}");
    }
    assert_eq!(lines[8], "9. x");
    assert_eq!(&lines[9..], &["10. aaaaaa".to_string(), "    a".to_string()]);
    let bullets = plain(&render_md("- one two three four", 10));
    assert_eq!(bullets, vec!["• one two", "   three", "   four"]);
}

#[test]
fn every_width_from_four_fits_every_document() {
    let md = "> 日本語日本語 quoted\n\n1. a\n2. b\n3. c\n4. d\n5. e\n6. f\n7. g\n8. h\n9. i\n10. jjjjjjjjjj\n\n\
              |a|b|c|d|e|f|\n|-|-|-|-|-|-|\n|1|2|3|4|5|6|\n\nplain 日志 words";
    for width in 4usize..=30 {
        for line in plain(&render_md(md, width)) {
            assert!(line.as_str().width() <= width, "line too wide at {width}: {line:?}");
        }
    }
}

#[test]
fn inline_markup_becomes_merged_fragments() {
    let b = MdStyle { tone: MdTone::Body, bold: false, italic: false, underlined: false, crossed: false };
    let chars: Vec<char> = "Some **bold** and *italic* text with `code`.".chars().collect();
    let frags = parse_inline(&chars, b);
    let got: Vec<(String, MdStyle)> = frags.iter().map(|f| (f.text.clone(), f.style)).collect();
    let bold = MdStyle { bold: true, ..b };
    let italic = MdStyle { italic: true, ..b };
    let code = MdStyle { tone: MdTone::Code, ..b };
    let want: Vec<(String, MdStyle)> = vec![
        ("Some ".into(), b),
        ("bold".into(), bold),
        (" and ".into(), b),
        ("italic".into(), italic),
        (" text with ".into(), b),
        ("code".into(), code),
        (".".into(), b),
    ];
    assert_eq!(got, want);

    let mut out: Vec<Frag> = Vec::new();
    push_frag(&mut out, String::new(), b);
    assert!(out.is_empty());
    push_frag(&mut out, "ab".into(), b);
    push_frag(&mut out, "cd".into(), b);
    push_frag(&mut out, "ef".into(), bold);
    let got: Vec<(String, MdStyle)> = out.iter().map(|f| (f.text.clone(), f.style)).collect();
    assert_eq!(got, vec![("abcd".into(), b), ("ef".into(), bold)]);
}
