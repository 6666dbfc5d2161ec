use gremlin::parser::{count_links, extract_link, parse, LineKind, StyledLine};

fn shown(lines: &[StyledLine]) -> Vec<(LineKind, String)> {
    lines.iter().map(|l| (l.kind, l.text.clone())).collect()
}

#[test]
fn parse_styles_each_kind_of_line() {
    let page = "# Title\n## Sub\n=> gemini://a.example Link A\n=> gemini://c.example\nplain text\n";
    let got = shown(&parse(0, 0, page));
    assert_eq!(
        got,
        vec![
            (LineKind::Heading, "Title".to_string()),
            (LineKind::SubHeading, "Sub".to_string()),
            (LineKind::SelectedLink, "Link A".to_string()),
            (LineKind::Link, "gemini://c.example".to_string()),
            (LineKind::Text, "plain text".to_string()),
            (LineKind::Text, "".to_string()),
        ]
    );
}

#[test]
fn parse_selects_the_link_under_the_cursor() {
    let page = "=> a one\n=> b two\n=> c three";
    let got = shown(&parse(1, 0, page));
    assert_eq!(got[0].0, LineKind::Link);
    assert_eq!(got[1], (LineKind::SelectedLink, "two".to_string()));
    assert_eq!(got[2].0, LineKind::Link);
}

#[test]
fn parse_selects_nothing_past_the_last_link() {
    let page = "=> a one\ntext\n=> b two";
    let got = shown(&parse(2, 0, page));
    assert!(got.iter().all(|(k, _)| *k != LineKind::SelectedLink));
}

#[test]
fn parse_joins_label_words_with_single_spaces() {
    let got = shown(&parse(5, 0, "=>   gemini://x.example    two\t\twords  "));
    assert_eq!(got, vec![(LineKind::Link, "two words".to_string())]);
}

#[test]
fn parse_trims_unicode_whitespace_in_headings() {
    let got = shown(&parse(0, 0, "#\u{3000} Title\u{a0}\n##\u{2003}Sub "));
    assert_eq!(got[0], (LineKind::Heading, "Title".to_string()));
    assert_eq!(got[1], (LineKind::SubHeading, "Sub".to_string()));
}

#[test]
fn parse_keeps_other_lines_unchanged() {
    let got = shown(&parse(0, 0, "=x\n=\n\n  # not a heading\n>= no"));
    assert_eq!(
        got,
        vec![
            (LineKind::Text, "=x".to_string()),
            (LineKind::Text, "=".to_string()),
            (LineKind::Text, "".to_string()),
            (LineKind::Text, "  # not a heading".to_string()),
            (LineKind::Text, ">= no".to_string()),
        ]
    );
}

#[test]
fn parse_gives_one_line_more_than_line_breaks() {
    assert_eq!(parse(0, 0, "").len(), 1);
    assert_eq!(parse(0, 0, "a\nb\n\n").len(), 4);
}

#[test]
fn parse_link_without_label_shows_address() {
    let got = shown(&parse(0, 0, "=>gemini://only.example  "));
    assert_eq!(got, vec![(LineKind::SelectedLink, "gemini://only.example".to_string())]);
}

#[test]
fn extract_link_gives_the_numbered_address() {
    let page = "# T\n=> gemini://a.example A\ntext\n=> b.example\n=>   c.example   see   here";
    assert_eq!(extract_link(page, 0), Some("gemini://a.example".to_string()));
    assert_eq!(extract_link(page, 1), Some("b.example".to_string()));
    assert_eq!(extract_link(page, 2), Some("c.example".to_string()));
    assert_eq!(extract_link(page, 3), None);
    assert_eq!(extract_link("no links here", 0), None);
}

#[test]
fn selected_line_matches_extracted_link() {
    let page = "=> one.example First\n=> two.example Second";
    let got = shown(&parse(1, 0, page));
    assert_eq!(got[1].0, LineKind::SelectedLink);
    assert_eq!(extract_link(page, 1), Some("two.example".to_string()));
}

#[test]
fn count_links_counts_link_lines() {
    assert_eq!(count_links(""), 0);
    assert_eq!(count_links("=> a\n=>b\n= c\n## d\n=>"), 3);
}

#[test]
fn parse_ignores_scroll_position() {
    let page = "# T\n=> a.example A\ntext";
    assert_eq!(shown(&parse(0, 0, page)), shown(&parse(0, 40, page)));
}
