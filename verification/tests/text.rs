use fiis::number::{check_literal, float_literal, LiteralError};
use fiis::text::{chars_of, is_whitespace, split_at_each, trimmed};

fn chars(s: &str) -> Vec<char> {
    s.chars().collect()
}

fn text(v: &[char]) -> String {
    v.iter().collect()
}

#[test]
fn whitespace_is_what_the_standard_library_says() {
    for u in 0..=0x10ffffu32 {
        if let Some(c) = char::from_u32(u) {
            assert_eq!(is_whitespace(c), c.is_whitespace(), "U+{:04X}", u);
        }
    }
}

#[test]
fn chars_of_gives_every_character() {
    assert_eq!(chars_of("aé\u{1F600}z"), vec!['a', 'é', '\u{1F600}', 'z']);
    assert_eq!(chars_of(""), Vec::<char>::new());
}

#[test]
fn trimmed_agrees_with_trim() {
    for s in ["", " ", "a", " a", "a ", "  a b  ", "\t\n x\u{a0}y \u{2003}\u{3000}", "\u{200b} a \u{200b}"] {
        assert_eq!(text(&trimmed(&chars(s))), s.trim(), "{:?}", s);
    }
}

#[test]
fn split_agrees_with_split() {
    for s in ["", ":", "a", "a:b", "a::b", ":a:", "a:b:c:", "::"] {
        let got: Vec<String> = split_at_each(&chars(s), ':').iter().map(|p| text(p)).collect();
        let want: Vec<String> = s.split(":").map(|p| p.to_string()).collect();
        assert_eq!(got, want, "{:?}", s);
    }
}

#[test]
fn literal_grammar_agrees_with_parsing() {
    let alphabet = ['0', '7', '.', 'e', 'E', '+', '-', 'i', 'n', 'f', 'a', 'N', ' ', 't', 'y', 'I'];
    let mut texts: Vec<String> = vec![String::new()];
    let mut level: Vec<String> = vec![String::new()];
    for _ in 0..5 {
        let mut next: Vec<String> = Vec::new();
        for t in &level {
            for c in alphabet {
                let mut u = t.clone();
                u.push(c);
                next.push(u);
            }
        }
        texts.extend(next.iter().cloned());
        level = next;
    }
    for t in ["infinity", "+infinity", "-INFINITY", "Infinity", "infinit", "infinityy", "nan", "-NaN",
              "1.5e+10", "1.5e-10", ".5e3", "5.e3", "1e", "1e+", "12345678901234567890.5", "1_0", "0x10",
              "１", "٣", "1,5", "e5", ".", "+.", "-.e1", "1f32"] {
        texts.push(t.to_string());
    }
    for t in &texts {
        let ours = float_literal(&chars(t));
        let std_ok = t.parse::<f64>().is_ok();
        assert_eq!(ours, std_ok, "{:?}", t);
        assert_eq!(std_ok, t.parse::<f32>().is_ok(), "{:?}", t);
    }
}

#[test]
fn literal_errors() {
    assert_eq!(check_literal(&chars("")), Err(LiteralError::Empty));
    assert_eq!(check_literal(&chars("+")), Err(LiteralError::Invalid));
    assert_eq!(check_literal(&chars(" 1")), Err(LiteralError::Invalid));
    assert_eq!(check_literal(&chars("-2.5e3")), Ok(()));
}
