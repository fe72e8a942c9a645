use regex::Regex;
use whatsapp_export_viewer::line_format::{split_header_exec, split_sender_exec, strip_format_chars_exec};
use whatsapp_export_viewer::text::{from_chars, to_chars};

const BRACKET: &str = r"^\[(\d{1,2}[./]\d{1,2}[./]\d{2,4},\s*\d{1,2}:\d{2}(?::\d{2})?)\]\s+(.*)$";
const DASH: &str = r"^(\d{1,2}[./]\d{1,2}[./]\d{2,4},\s*\d{1,2}:\d{2}(?::\d{2})?)\s+-\s+(.*)$";
const SENDER: &str = r"^(?:~\s*)?([^:]+):\s?(.*)$";

struct Reference {
    bracket: Regex,
    dash: Regex,
    sender: Regex,
}

impl Reference {
    fn new() -> Reference {
        Reference {
            bracket: Regex::new(BRACKET).unwrap(),
            dash: Regex::new(DASH).unwrap(),
            sender: Regex::new(SENDER).unwrap(),
        }
    }

    fn header(&self, line: &str) -> Option<(String, String)> {
        reference_header(&self.bracket, &self.dash, line)
    }

    fn sender(&self, rest: &str) -> Option<(String, String)> {
        self.sender.captures(rest).map(|c| (c[1].to_string(), c[2].to_string()))
    }
}

fn reference_header(bracket: &Regex, dash: &Regex, line: &str) -> Option<(String, String)> {
    if let Some(c) = bracket.captures(line) {
        return Some((c[1].to_string(), c[2].to_string()));
    }
    if let Some(c) = dash.captures(line) {
        return Some((c[1].to_string(), c[2].to_string()));
    }
    None
}

fn header(line: &str) -> Option<(String, String)> {
    split_header_exec(&to_chars(line)).map(|(a, b)| (from_chars(&a), from_chars(&b)))
}

fn sender(rest: &str) -> Option<(String, String)> {
    split_sender_exec(&to_chars(rest)).map(|(a, b)| (from_chars(&a), from_chars(&b)))
}

struct Lcg(u64);

impl Lcg {
    fn next(&mut self) -> u64 {
        self.0 = self.0.wrapping_mul(6364136223846793005).wrapping_add(1442695040888963407);
        self.0 >> 33
    }
    fn pick<'a>(&mut self, items: &'a [&'a str]) -> &'a str {
        items[(self.next() as usize) % items.len()]
    }
}

fn random_line(rng: &mut Lcg) -> String {
    let pieces: &[&str] = &[
        "1", "12", "123", "2024", "24", "٣", "١٢", "０", "𝟎", ".", "/", ",", ", ", ",  ", ":", ":30",
        ":05:59", " ", "  ", "\t", "\u{2003}", "\u{a0}", "\n", "[", "]", "] ", " - ", "-", " -", "~",
        "~ ", "a", "Dana", "שלום", "ב", "x:", ": ", "::", "\r", "<attached: a.jpg>", "12/03/2024, 9:30",
        "12.03.24, 21:05:07", "1/2/24, 10:00",
    ];
    let n = 1 + (rng.next() as usize) % 9;
    let mut s = String::new();
    if rng.next() % 2 == 0 {
        let openings: &[&str] = &["[12/3/24, 9:30", "12/3/24, 9:30", "[1.2.2024, 10:00:00", "1.2.2024,10:00:00"];
        s.push_str(rng.pick(openings));
    }
    for _ in 0..n {
        s.push_str(rng.pick(pieces));
    }
    s
}

#[test]
fn header_matches_reference_on_generated_lines() {
    let reference = Reference::new();
    let mut rng = Lcg(7);
    let mut matched = 0;
    for _ in 0..20000 {
        let line = random_line(&mut rng);
        let expected = reference.header(&line);
        if expected.is_some() {
            matched += 1;
        }
        assert_eq!(header(&line), expected, "line {:?}", line);
    }
    assert!(matched > 100, "too few header lines were generated: {}", matched);
}

#[test]
fn header_matches_reference_on_templates() {
    let reference = Reference::new();
    let stamps = [
        "12/03/2024, 9:30", "1/2/24, 10:00:59", "12.03.24,21:05", "١٢/٣/٢٠٢٤, ٩:٣٠", "1/2/3, 4:55",
        "123/2/24, 10:00", "1/2/24,  10:00", "1/2/24, 10:000", "1/2/24, 10:00:5", "01/02/2024, 10:00:00",
        "1/2/12345, 10:00", "1/2/24 10:00",
    ];
    let tails = [
        "] Dana: hi", "]  Dana: hi", "]\tx", "] ", "]x", "] a\nb", " - Dana: hi", "  -  x", " -x",
        " - ", " - a\nb", "- x", " -\nx", "]\nx",
    ];
    for s in stamps {
        for t in tails {
            for open in ["[", ""] {
                let line = format!("{}{}{}", open, s, t);
                assert_eq!(header(&line), reference.header(&line), "line {:?}", line);
            }
        }
    }
}

#[test]
fn sender_matches_reference() {
    let reference = Reference::new();
    let mut rng = Lcg(11);
    let pieces: &[&str] = &[
        "~", "~ ", " ", "\t", "Dana", "שלום", ":", ": ", ":\t", "::", "a", "\n", "x y", "\u{3000}",
        "<attached: IMG.jpg>",
    ];
    for _ in 0..20000 {
        let n = 1 + (rng.next() as usize) % 7;
        let mut s = String::new();
        for _ in 0..n {
            s.push_str(rng.pick(pieces));
        }
        assert_eq!(sender(&s), reference.sender(&s), "rest {:?}", s);
    }
    for s in ["~ Dana: hi", "~:x", "~  :x", "~ :x", ":x", "Dana:", "Dana:  two", "a:\nb", "a: \nb", "a:\n"] {
        assert_eq!(sender(s), reference.sender(s), "rest {:?}", s);
    }
}

#[test]
fn format_characters_are_removed() {
    let raw = "\u{200f}[1/2/24, 10:00]\u{200e} Dana:\u{202a} hi\r";
    let stripped = from_chars(&strip_format_chars_exec(&to_chars(raw)));
    assert_eq!(stripped, "[1/2/24, 10:00] Dana: hi");
}

#[test]
fn ios_and_android_headers() {
    assert_eq!(
        header("[12/03/2024, 09:30:15] Dana: hello"),
        Some(("12/03/2024, 09:30:15".to_string(), "Dana: hello".to_string()))
    );
    assert_eq!(
        header("12/03/2024, 21:05 - Dana: hello"),
        Some(("12/03/2024, 21:05".to_string(), "Dana: hello".to_string()))
    );
    assert_eq!(header("just a continuation line"), None);
}
