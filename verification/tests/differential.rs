//! Checks the verified text handling against the standard library on many generated inputs.
use phm::version::PhpVersion;

/// A small deterministic generator of strings over an alphabet that exercises the parsers.
fn samples() -> Vec<String> {
    let alphabet: Vec<char> = vec![
        '8', '7', '2', '0', '4', '.', '*', '|', ' ', '\t', '>', '<', '=', '^', '~', '+', '-', 'x', '\u{a0}', '\u{3000}',
    ];
    let mut out = Vec::new();
    let mut state: u64 = 0x2545_f491_4f6c_dd1d;
    for len in 0..12usize {
        for _ in 0..400 {
            let mut s = String::new();
            for _ in 0..len {
                state ^= state << 13;
                state ^= state >> 7;
                state ^= state << 17;
                s.push(alphabet[(state % alphabet.len() as u64) as usize]);
            }
            out.push(s);
        }
    }
    out
}

fn std_parse(s: &str) -> Option<PhpVersion> {
    let pieces: Vec<&str> = s.trim().split('.').collect();
    if pieces.len() < 2 {
        return None;
    }
    Some(PhpVersion::new(pieces[0].parse().ok()?, pieces[1].parse().ok()?))
}

fn std_single(s: &str) -> Option<PhpVersion> {
    let mut t = s.trim();
    for op in [">=", "<=", ">", "<", "^", "~"] {
        t = t.trim_start_matches(op);
    }
    std_parse(t.trim().trim_end_matches(".*"))
}

fn std_constraint(c: &str) -> Option<PhpVersion> {
    let c = c.trim();
    if c.contains('|') {
        let sep = if c.contains("||") { "||" } else { "|" };
        let mut best: Option<PhpVersion> = None;
        for v in c.split(sep).filter_map(std_single) {
            best = match best {
                Some(b) if v.major < b.major || (v.major == b.major && v.minor >= b.minor) => Some(b),
                _ => Some(v),
            };
        }
        return best;
    }
    if c.contains(' ') {
        let parts: Vec<&str> = c.split_whitespace().collect();
        let lower = parts
            .iter()
            .filter(|p| p.starts_with('>'))
            .find_map(|p| std_parse(p.trim_start_matches(">=").trim_start_matches('>')));
        return lower.or_else(|| parts.first().and_then(|p| std_single(p)));
    }
    std_single(c)
}

#[test]
fn whitespace_matches_char_is_whitespace() {
    for code in 0u32..0x11_0000 {
        if let Some(c) = char::from_u32(code) {
            let s = format!("{}8.2{}", c, c);
            let expected = if c.is_whitespace() { Some(PhpVersion::new(8, 2)) } else { std_parse(&s) };
            assert_eq!(PhpVersion::parse(&s), expected, "U+{:04X}", code);
        }
    }
}

#[test]
fn parse_agrees_with_std() {
    for s in samples() {
        assert_eq!(PhpVersion::parse(&s), std_parse(&s), "{:?}", s);
    }
}

#[test]
fn from_constraint_agrees_with_std() {
    for s in samples() {
        assert_eq!(PhpVersion::from_constraint(&s), std_constraint(&s), "{:?}", s);
    }
}
