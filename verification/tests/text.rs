use biquad_studio::number::is_float_span;
use biquad_studio::text::{is_whitespace, split_span, trim_span};

#[test]
fn whitespace_matches_std_for_every_char() {
    for u in 0u32..0x110000 {
        if let Some(c) = char::from_u32(u) {
            assert_eq!(is_whitespace(c), c.is_whitespace(), "char {:x}", u);
        }
    }
}

fn float_ok(s: &str) -> bool {
    let c: Vec<char> = s.chars().collect();
    is_float_span(&c, 0, c.len())
}

#[test]
fn float_text_matches_std_parse() {
    let samples = [
        "", "0", "1", "-1", "+1", "1.", ".1", ".", "-.", "+.5", "1.5", "1e5", "1E5", "1e+5", "1e-5", "1e",
        "1e+", "e5", ".e5", "1.e5", ".5e-3", "inf", "INF", "-inf", "+Infinity", "infinity", "infinit",
        "nan", "NaN", "-nan", "+NAN", "nan1", "1.2.3", "1e5e5", "--1", "+-1", "0x10", "1_000", " 1",
        "1 ", "١", "12abc", "abc", "-", "+", "e", "E", "00.00", "9999999999999999999999", "1e400",
        "inF", "iNfInItY", "nAn", "1.5E+07", "-0.0", "1..2", "1ee5", "1e5.0", "İnf", "∞",
    ];
    for s in samples {
        assert_eq!(float_ok(s), s.parse::<f64>().is_ok(), "token {:?}", s);
    }
    let alphabet = ['0', '7', '.', 'e', 'E', '+', '-', 'i', 'n', 'f', 'a', 'x'];
    for a in alphabet {
        for b in alphabet {
            for c in alphabet {
                for d in alphabet {
                    let s: String = [a, b, c, d].iter().collect();
                    assert_eq!(float_ok(&s), s.parse::<f64>().is_ok(), "token {:?}", s);
                    let t: String = [a, b, c].iter().collect();
                    assert_eq!(float_ok(&t), t.parse::<f64>().is_ok(), "token {:?}", t);
                }
            }
        }
    }
}

#[test]
fn trim_and_split_match_std() {
    let samples = [
        "", " ", "a", "  a b  ", "\t Filter 1:\u{a0}ON  PK\u{2003}Fc 10 \r", "x\u{85}y", "\u{3000}\u{3000}",
        "one", "a  b\n c", "\u{200b}zero-width",
    ];
    for s in samples {
        let c: Vec<char> = s.chars().collect();
        let (a, b) = trim_span(&c, 0, c.len());
        let trimmed: String = c[a..b].iter().collect();
        assert_eq!(trimmed, s.trim());
        let toks: Vec<String> = split_span(&c, 0, c.len())
            .iter()
            .map(|&(x, y)| c[x..y].iter().collect())
            .collect();
        let expected: Vec<String> = s.split_whitespace().map(|t| t.to_string()).collect();
        assert_eq!(toks, expected);
    }
}
