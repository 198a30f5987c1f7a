use srs_tetris::scores::{
    format_scores, is_whitespace, load_scores, parse_line, parse_scores, sort_scores_desc,
    top_scores, SCORES_KEEP,
};

#[test]
fn parses_one_score_per_line() {
    assert_eq!(parse_scores("100\n  50 \nabc\n+7\n-3\n4294967296\n\n4294967295"), vec![100, 50, 7, 4294967295]);
    assert_eq!(parse_scores(""), Vec::<u32>::new());
    assert_eq!(parse_scores("12\r\n34\r\n"), vec![12, 34]);
    assert_eq!(parse_scores("\u{a0}8\u{3000}\n"), vec![8]);
}

#[test]
fn line_parsing_follows_u32_parsing() {
    let cases = ["0", "007", "+1", "+", "", "  ", "1 2", "12a", "4294967295", "4294967296", "99999999999999999999", "-1", "++1", "\t42\t"];
    for case in cases {
        let chars: Vec<char> = case.chars().collect();
        assert_eq!(parse_line(&chars), case.trim().parse::<u32>().ok(), "line {:?}", case);
    }
}

#[test]
fn whitespace_matches_char_is_whitespace() {
    for c in ['\t', '\n', '\u{0b}', '\u{0c}', '\r', ' ', '\u{85}', '\u{a0}', '\u{1680}', '\u{2000}', '\u{2005}', '\u{200a}', '\u{2028}', '\u{2029}', '\u{202f}', '\u{205f}', '\u{3000}', 'a', '0', '\u{200b}', '\u{1f}', '\u{feff}'] {
        assert_eq!(is_whitespace(c), c.is_whitespace(), "char {:?}", c);
    }
}

#[test]
fn formats_one_score_per_line() {
    assert_eq!(format_scores(&[300, 20, 1, 0]), "300\n20\n1\n0");
    assert_eq!(format_scores(&[]), "");
    assert_eq!(format_scores(&[4294967295]), "4294967295");
}

#[test]
fn load_sorts_best_first_and_keeps_ten() {
    let text = "5\n70\n3\n90\n11\n2\n8\n1\n60\n40\n100\n";
    assert_eq!(load_scores(text), vec![100, 90, 70, 60, 40, 11, 8, 5, 3, 2]);
    assert_eq!(load_scores(text).len(), SCORES_KEEP);
}

#[test]
fn saved_scores_load_back() {
    let list = vec![900, 900, 450, 12, 0];
    assert_eq!(load_scores(&format_scores(&list)), list);
}

#[test]
fn sorting_and_top_scores() {
    assert_eq!(sort_scores_desc(&vec![3, 9, 1, 9, 4]), vec![9, 9, 4, 3, 1]);
    assert_eq!(top_scores((0..15).collect()), vec![14, 13, 12, 11, 10, 9, 8, 7, 6, 5]);
    assert_eq!(top_scores(vec![]), Vec::<u32>::new());
}
