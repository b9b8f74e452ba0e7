use score_table::record::decode_row;
use score_table::text::{coerce_quota, coerce_score, first_token, strip_marker};

fn strings_over(alphabet: &[char], max_len: usize) -> Vec<String> {
    let mut all = vec![String::new()];
    let mut last = vec![String::new()];
    for _ in 0..max_len {
        let mut next = Vec::new();
        for prefix in &last {
            for c in alphabet {
                let mut longer = prefix.clone();
                longer.push(*c);
                next.push(longer);
            }
        }
        all.extend(next.iter().cloned());
        last = next;
    }
    all
}

fn written_integer(text: &str) -> Option<i128> {
    let chars: Vec<char> = text.chars().collect();
    let (negative, digits) = match chars.first() {
        Some('-') => (true, &chars[1..]),
        Some('+') => (false, &chars[1..]),
        _ => (false, &chars[..]),
    };
    if digits.is_empty() {
        return None;
    }
    let mut value: i128 = 0;
    for c in digits {
        if !('0'..='9').contains(c) {
            return None;
        }
        value = value * 10 + (*c as i128 - '0' as i128);
    }
    Some(if negative { -value } else { value })
}

fn expected_in(text: &str, low: i128, high: i128) -> (i128, bool) {
    match written_integer(text) {
        Some(v) if low <= v && v <= high => (v, false),
        _ => (0, true),
    }
}

#[test]
fn quota_agrees_with_the_grammar_on_short_strings() {
    for text in strings_over(&['0', '1', '3', '9', '+', '-', ' ', 'x'], 5) {
        let got = coerce_quota(&text);
        let (value, defaulted) = expected_in(&text, -32768, 32767);
        assert_eq!((got.value as i128, got.defaulted), (value, defaulted));
    }
}

#[test]
fn quota_agrees_with_the_grammar_near_the_bounds() {
    for sign in ["", "+", "-", "-0", "+00"] {
        for magnitude in 32700..32800 {
            let text = format!("{}{}", sign, magnitude);
            let got = coerce_quota(&text);
            let (value, defaulted) = expected_in(&text, -32768, 32767);
            assert_eq!((got.value as i128, got.defaulted), (value, defaulted));
        }
    }
}

#[test]
fn score_agrees_with_the_grammar_on_short_strings() {
    for text in strings_over(&['0', '1', '2', '7', '8', '9', '+', '-', '.'], 4) {
        let got = coerce_score(&text);
        let (value, defaulted) = expected_in(&text, -128, 127);
        assert_eq!((got.value as i128, got.defaulted), (value, defaulted));
    }
}

#[test]
fn score_agrees_with_the_grammar_near_the_bounds() {
    for sign in ["", "+", "-", "-00"] {
        for magnitude in 0..300 {
            let text = format!("{}{}", sign, magnitude);
            let got = coerce_score(&text);
            let (value, defaulted) = expected_in(&text, -128, 127);
            assert_eq!((got.value as i128, got.defaulted), (value, defaulted));
        }
    }
}

#[test]
fn marker_stripping_keeps_exactly_the_other_characters() {
    for text in strings_over(&['*', 'a', ' ', 'é'], 6) {
        let expected: String = text.chars().filter(|c| *c != '*').collect();
        assert_eq!(strip_marker(&text), expected);
    }
}

#[test]
fn first_token_is_the_first_run_without_whitespace() {
    for text in strings_over(&['a', 'b', ' ', '\t', '\u{a0}', '*'], 6) {
        let chars: Vec<char> = text.chars().collect();
        let start = chars.iter().position(|c| !c.is_whitespace());
        let expected = start.map(|from| {
            let mut word = String::new();
            for c in &chars[from..] {
                if c.is_whitespace() {
                    break;
                }
                word.push(*c);
            }
            word
        });
        assert_eq!(first_token(&text), expected);
    }
}

#[test]
fn decoded_scores_agree_with_a_plain_walk_over_the_columns() {
    let subjects: Vec<String> = ["A", "B", "A", "C"].iter().map(|s| s.to_string()).collect();
    let cell_texts = ["0", "5", "-2", "x", "7"];
    let mut rows: Vec<Vec<usize>> = vec![Vec::new()];
    let mut last: Vec<Vec<usize>> = vec![Vec::new()];
    for _ in 0..5 {
        let mut longer = Vec::new();
        for row in &last {
            for pick in 0..cell_texts.len() {
                let mut next = row.clone();
                next.push(pick);
                longer.push(next);
            }
        }
        rows.extend(longer.iter().cloned());
        last = longer;
    }
    for picks in rows {
        let mut cells: Vec<String> = ["id", "name", "1", "2"].iter().map(|s| s.to_string()).collect();
        cells.extend(picks.iter().map(|pick| cell_texts[*pick].to_string()));
        let mut expected: Vec<(String, i8)> = Vec::new();
        for (j, pick) in picks.iter().enumerate() {
            let score: i8 = cell_texts[*pick].parse().unwrap_or(0);
            if j < subjects.len() && score > 0 {
                match expected.iter_mut().find(|(key, _)| *key == subjects[j]) {
                    Some(slot) => slot.1 = score,
                    None => expected.push((subjects[j].clone(), score)),
                }
            }
        }
        let major = decode_row(&cells, "F", &subjects);
        let mut got: Vec<(String, i8)> = Vec::new();
        for at in 0..major.scores.len() {
            let entry = major.scores.entry(at);
            got.push((entry.subject.clone(), entry.score));
        }
        assert_eq!(got, expected);
    }
}
