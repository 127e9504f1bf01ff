use solar_system::text::{space, split_tokens, to_chars, token_spans};

const LINES: [&str; 12] = [
    "",
    " ",
    "v",
    "v 1 2 3",
    "  v 1.0\t2.0 \u{3000}3.0\r",
    "\u{a0}f\u{2003}1/1/1\u{2028}2/2/2\u{85}3/3/3\u{1680}",
    "a\nb\x0bc\x0cd",
    "# comment with  two  spaces ",
    "mtllib   file name.mtl",
    "\u{200b}zero\u{200b}width \u{feff}mark",
    "é ü\tß",
    "\t\t\t",
];

#[test]
fn tokens_are_those_of_split_whitespace() {
    for line in LINES {
        let want: Vec<String> = line.split_whitespace().map(|s| s.to_string()).collect();
        assert_eq!(split_tokens(line), want, "{:?}", line);
    }
}

#[test]
fn token_spans_cover_the_tokens() {
    for line in LINES {
        let chars = to_chars(line);
        let spans = token_spans(&chars, 0, chars.len());
        let got: Vec<String> =
            spans.iter().map(|s| chars[s.start..s.end].iter().collect()).collect();
        let want: Vec<String> = line.split_whitespace().map(|s| s.to_string()).collect();
        assert_eq!(got, want, "{:?}", line);
        for j in 0..chars.len() {
            let covered = spans.iter().any(|s| s.start <= j && j < s.end);
            assert_eq!(covered, !chars[j].is_whitespace());
        }
    }
}

#[test]
fn token_spans_stay_in_their_range() {
    let chars = to_chars("ab cd ef");
    let spans = token_spans(&chars, 1, 7);
    let got: Vec<(usize, usize)> = spans.iter().map(|s| (s.start, s.end)).collect();
    assert_eq!(got, vec![(1, 2), (3, 5), (6, 7)]);
    assert!(token_spans(&chars, 2, 2).is_empty());
}

#[test]
fn to_chars_keeps_every_character() {
    let text = "v 1 2 3\né\u{3000}𝄞";
    let want: Vec<char> = text.chars().collect();
    assert_eq!(to_chars(text), want);
    assert!(to_chars("").is_empty());
}

#[test]
fn space_agrees_with_char_is_whitespace() {
    let mut c: u32 = 0;
    while c <= 0x10FFFF {
        if let Some(ch) = char::from_u32(c) {
            assert_eq!(space(ch), ch.is_whitespace());
        }
        c += 1;
    }
}
