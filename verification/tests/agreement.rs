//! The library's own reading of lines, names and texts agrees with what
//! regular expressions and the standard library say.
use am::chars::{is_ascii_alphanumeric, is_control, is_whitespace};
use am::entry::{AliasEntry, AliasKind};
use am::line::{is_valid_alias_name, parse_alias_line};
use am::text::{contains_text, is_before, split_lines, trim};
use regex::Regex;

const ALIAS_LINE: &str = r#"^\s*alias\s+([A-Za-z0-9_][A-Za-z0-9_.-]*)=(?:"([^"]*)"|'([^']*)')\s*#\s*(command|folder|ssh)\s*$"#;
const NAME: &str = r"^[A-Za-z0-9_][A-Za-z0-9_.-]*$";

fn by_regex(re: &Regex, line: &str) -> Option<AliasEntry> {
    let caps = re.captures(line)?;
    let name = caps.get(1)?.as_str().to_string();
    let action = caps
        .get(2)
        .or_else(|| caps.get(3))
        .map(|m| m.as_str().to_string())?;
    let kind = AliasKind::from_marker(caps.get(4)?.as_str())?;
    Some(AliasEntry { name, action, kind })
}

struct Random(u64);

impl Random {
    fn below(&mut self, n: usize) -> usize {
        self.0 = self
            .0
            .wrapping_mul(6364136223846793005)
            .wrapping_add(1442695040888963407);
        (self.0 >> 33) as usize % n
    }
}

const PIECES: [&str; 30] = [
    "alias", " ", "\t", "\u{a0}", "\u{3000}", "a", "gp", "_", ".", "-", "=", "\"", "'", "#",
    "command", "folder", "ssh", "\n", "\r", "é", "x y", "=\"", "\" #", "\"#", "# command", "\u{85}",
    "\u{200b}", "9", "alias a=", "",
];

#[test]
fn random_lines_agree_with_the_regular_expression() {
    let re = Regex::new(ALIAS_LINE).unwrap();
    let mut random = Random(7);
    let mut found = 0;
    for _ in 0..4000 {
        let mut line = String::new();
        for _ in 0..random.below(12) {
            line.push_str(PIECES[random.below(PIECES.len())]);
        }
        assert_eq!(parse_alias_line(&line), by_regex(&re, &line), "{line:?}");
    }
    for _ in 0..4000 {
        let part = |r: &mut Random| PIECES[r.below(PIECES.len())];
        let gap = |r: &mut Random| [" ", "", "\t ", "\u{2003}", "x"][r.below(5)];
        let quote = ["\"", "'"][random.below(2)];
        let line = format!(
            "{}alias{}{}{}={}{}{}{}{}#{}{}{}",
            gap(&mut random),
            gap(&mut random),
            part(&mut random),
            part(&mut random),
            quote,
            part(&mut random),
            part(&mut random),
            quote,
            gap(&mut random),
            gap(&mut random),
            ["command", "folder", "ssh", "dir"][random.below(4)],
            gap(&mut random),
        );
        let expected = by_regex(&re, &line);
        if expected.is_some() {
            found += 1;
        }
        assert_eq!(parse_alias_line(&line), expected, "{line:?}");
    }
    assert!(found > 100, "only {found} lines hold an alias");
}

#[test]
fn random_names_agree_with_the_regular_expression() {
    let re = Regex::new(NAME).unwrap();
    let mut random = Random(11);
    for _ in 0..3000 {
        let mut name = String::new();
        for _ in 0..random.below(4) {
            name.push_str(PIECES[random.below(PIECES.len())]);
        }
        assert_eq!(is_valid_alias_name(&name), re.is_match(&name), "{name:?}");
    }
}

#[test]
fn classes_of_characters_agree_with_std() {
    let space = Regex::new(r"^\s$").unwrap();
    for c in (0..=0x10FFFFu32).filter_map(char::from_u32) {
        assert_eq!(is_whitespace(c), c.is_whitespace(), "{c:?}");
        assert_eq!(is_control(c), c.is_control(), "{c:?}");
        assert_eq!(is_ascii_alphanumeric(c), c.is_ascii_alphanumeric(), "{c:?}");
    }
    for c in (0..0x3100u32).filter_map(char::from_u32) {
        assert_eq!(is_whitespace(c), space.is_match(&c.to_string()), "{c:?}");
    }
}

#[test]
fn random_texts_agree_with_std() {
    let mut random = Random(3);
    let mut last = String::new();
    for _ in 0..3000 {
        let mut text = String::new();
        for _ in 0..random.below(8) {
            text.push_str(PIECES[random.below(PIECES.len())]);
        }
        assert_eq!(trim(&text), text.trim(), "{text:?}");
        assert_eq!(
            split_lines(&text),
            text.lines().map(str::to_string).collect::<Vec<String>>(),
            "{text:?}"
        );
        assert_eq!(contains_text(&text, &last), text.contains(&last));
        assert_eq!(is_before(&text, &last), text < last);
        let piece = PIECES[random.below(PIECES.len())];
        assert_eq!(contains_text(&text, piece), text.contains(piece));
        last = text;
    }
}
