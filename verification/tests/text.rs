use qq_bot::text::{chars_of, contains_chars, line_bounds, trim_bounds, word_bounds};

fn pieces(v: &Vec<char>, bounds: &[(usize, usize)]) -> Vec<String> {
    bounds.iter().map(|&(a, b)| v[a..b].iter().collect()).collect()
}

#[test]
fn lines_like_std() {
    for s in ["", "\n", "a", "a\n", "a\nb", "a\r\nb\r\n", "a\r", "\n\nx", "a\rb\n"] {
        let v = chars_of(s);
        let ours = pieces(&v, &line_bounds(&v, 0, v.len()));
        let std: Vec<String> = s.lines().map(|l| l.to_string()).collect();
        assert_eq!(ours, std, "{:?}", s);
    }
}

#[test]
fn words_like_std() {
    for s in ["", "  ", "!blacklist add 1", " a\u{3000}b\tc\n", "x"] {
        let v = chars_of(s);
        let ours = pieces(&v, &word_bounds(&v, 0, v.len()));
        let std: Vec<String> = s.split_whitespace().map(|l| l.to_string()).collect();
        assert_eq!(ours, std, "{:?}", s);
    }
}

#[test]
fn trim_like_std() {
    for s in ["", "   ", " a b ", "\u{a0}x\u{2003}", "\r\nq\r\n"] {
        let v = chars_of(s);
        let (a, b) = trim_bounds(&v, 0, v.len());
        let ours: String = v[a..b].iter().collect();
        assert_eq!(ours, s.trim(), "{:?}", s);
    }
}

#[test]
fn contains_like_std() {
    let v = chars_of("出典了");
    assert!(contains_chars(&v, &chars_of("出典")));
    assert!(!contains_chars(&v, &chars_of("入典")));
    assert!(contains_chars(&v, &chars_of("")));
}
