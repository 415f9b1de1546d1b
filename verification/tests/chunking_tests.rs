use regex::Regex;
use supertonic_reader::chunking::{chunk_text, find_breaks, split_paragraphs, split_sentences};

fn chars(s: &str) -> Vec<char> {
    s.chars().collect()
}

fn strings(v: Vec<Vec<char>>) -> Vec<String> {
    v.into_iter().map(|c| c.into_iter().collect()).collect()
}

#[test]
fn blank_text_gives_one_empty_chunk() {
    assert_eq!(chunk_text("   \n\t ", None), vec![String::new()]);
    assert_eq!(chunk_text("", Some(10)), vec![String::new()]);
}

#[test]
fn short_text_is_one_trimmed_chunk() {
    assert_eq!(chunk_text("  Hello world.  ", None), vec!["Hello world.".to_string()]);
}

#[test]
fn paragraphs_become_chunks() {
    assert_eq!(
        chunk_text("First para.\n\nSecond para.", None),
        vec!["First para.".to_string(), "Second para.".to_string()]
    );
    assert_eq!(
        chunk_text("First.\n \t\n  Second.\n\n\n", None),
        vec!["First.".to_string(), "Second.".to_string()]
    );
}

#[test]
fn single_line_break_keeps_paragraph() {
    assert_eq!(chunk_text("Line one\nline two", None), vec!["Line one\nline two".to_string()]);
}

#[test]
fn long_paragraph_is_packed_by_sentences() {
    assert_eq!(
        chunk_text("One two three. Four five six. Seven.", Some(20)),
        vec!["One two three.".to_string(), "Four five six.".to_string(), "Seven.".to_string()]
    );
    assert_eq!(
        chunk_text("One. Two. Three. Four.", Some(10)),
        vec!["One. Two.".to_string(), "Three.".to_string(), "Four.".to_string()]
    );
}

#[test]
fn abbreviation_does_not_end_sentence() {
    assert_eq!(
        chunk_text("Dr. Smith is here. He left.", Some(10)),
        vec!["Dr. Smith".to_string(), "is here.".to_string(), "He left.".to_string()]
    );
}

#[test]
fn long_sentence_is_split_at_commas() {
    assert_eq!(
        chunk_text("alpha beta, gamma delta, epsilon zeta", Some(15)),
        vec!["alpha beta".to_string(), "gamma delta".to_string(), "epsilon zeta".to_string()]
    );
}

#[test]
fn long_clause_is_split_at_words_before_pending_clauses() {
    assert_eq!(
        chunk_text("one, two, three four five six seven eight", Some(20)),
        vec![
            "three four five six".to_string(),
            "seven eight".to_string(),
            "one, two".to_string()
        ]
    );
}

#[test]
fn single_long_word_is_kept_whole() {
    assert_eq!(
        chunk_text("supercalifragilistic word", Some(5)),
        vec!["supercalifragilistic".to_string(), "word".to_string()]
    );
}

#[test]
fn limit_counts_bytes_not_characters() {
    // 5 characters of 3 bytes each: 15 bytes, over a limit of 10.
    let text = "日本語です 日本語です";
    assert_eq!(
        chunk_text(text, Some(10)),
        vec!["日本語です".to_string(), "日本語です".to_string()]
    );
    assert_eq!(chunk_text(text, Some(40)), vec![text.to_string()]);
}

#[test]
fn default_limit_is_three_hundred_bytes() {
    let word = "abcd ";
    let text: String = word.repeat(60);
    let trimmed = text.trim().to_string();
    assert_eq!(trimmed.len(), 299);
    assert_eq!(chunk_text(&text, None), vec![trimmed.clone()]);
    let longer = format!("{} xy", trimmed);
    let chunks = chunk_text(&longer, None);
    assert!(chunks.len() > 1);
    for c in &chunks {
        assert!(c.len() <= 301);
        assert_eq!(c.trim(), c.as_str());
        assert!(!c.is_empty());
    }
}

#[test]
fn chunks_are_trimmed_nonempty_and_bounded() {
    let text = "Alpha beta gamma. Delta, epsilon, zeta eta theta iota kappa lambda mu. \
                Nu xi omicron pi rho sigma tau upsilon phi chi psi omega!\n\n  Second paragraph here?";
    for max in [8usize, 12, 20, 33, 50] {
        let chunks = chunk_text(text, Some(max));
        assert!(!chunks.is_empty());
        for c in &chunks {
            assert!(!c.is_empty());
            assert_eq!(c.trim(), c.as_str());
            assert!(c.len() <= max + 1 || !c.contains(char::is_whitespace));
        }
    }
}

#[test]
fn paragraphs_match_blank_line_regex() {
    let re = Regex::new(r"\n\s*\n").unwrap();
    for text in [
        "a\n\nb",
        "a\n \n\nb",
        "a\r\n\r\nb",
        "x \n\u{3000}\n y",
        "no break\nhere",
        "\n\nlead",
        "trail\n\n",
        "a\n\t\n b\n\nc",
        "",
    ] {
        let expected: Vec<String> = re.split(text).map(|s| s.to_string()).collect();
        assert_eq!(strings(split_paragraphs(&chars(text))), expected, "text {:?}", text);
    }
}

#[test]
fn sentence_breaks_match_regex() {
    let re = Regex::new(r"([.!?])\s+").unwrap();
    for text in ["One. Two!  Three?\nFour.", "a.b. c", "Wait...  what", "End.", "x!\u{2003}y", ""] {
        let expected: Vec<(usize, usize)> = re
            .find_iter(text)
            .map(|m| (text[..m.start()].chars().count(), text[..m.end()].chars().count()))
            .collect();
        assert_eq!(find_breaks(&chars(text)), expected, "text {:?}", text);
    }
}

#[test]
fn sentences_concatenate_to_text() {
    for text in ["Mr. Brown met Dr. Who. They left! Why? ", "plain", "", "A. B. C."] {
        let parts = strings(split_sentences(&chars(text)));
        assert_eq!(parts.concat(), text);
    }
    assert_eq!(
        strings(split_sentences(&chars("Hi there. Mr. Brown came. Bye"))),
        vec!["Hi there. ".to_string(), "Mr. Brown came. ".to_string(), "Bye".to_string()]
    );
}

#[test]
fn text_of_only_commas_yields_the_empty_chunk() {
    assert_eq!(chunk_text(",,,,,,,,,,", Some(5)), vec![String::new()]);
    assert_eq!(chunk_text(", , ,", Some(100)), vec![", , ,".to_string()]);
}

#[test]
fn over_long_paragraph_of_one_word_per_sentence() {
    assert_eq!(
        chunk_text("Aaaaaaaaaaaaaaaa. B.", Some(8)),
        vec!["Aaaaaaaaaaaaaaaa.".to_string(), "B.".to_string()]
    );
}

fn random_texts(count: usize, seed: u64) -> Vec<String> {
    let alphabet = ['a', 'b', ' ', '\n', '\t', '.', '!', '?', ',', '\u{3000}', '\r', 'D', 'r'];
    let mut state = seed;
    let mut out = Vec::new();
    for _ in 0..count {
        state = state.wrapping_mul(6364136223846793005).wrapping_add(1442695040888963407);
        let len = (state >> 33) as usize % 40;
        let mut s = String::new();
        for _ in 0..len {
            state = state.wrapping_mul(6364136223846793005).wrapping_add(1442695040888963407);
            s.push(alphabet[(state >> 33) as usize % alphabet.len()]);
        }
        out.push(s);
    }
    out
}

#[test]
fn paragraphs_and_breaks_agree_with_regex_on_random_text() {
    let para = Regex::new(r"\n\s*\n").unwrap();
    let brk = Regex::new(r"([.!?])\s+").unwrap();
    for text in random_texts(2000, 7) {
        let expected: Vec<String> = para.split(&text).map(|s| s.to_string()).collect();
        assert_eq!(strings(split_paragraphs(&chars(&text))), expected, "text {:?}", text);
        let expected_breaks: Vec<(usize, usize)> = brk
            .find_iter(&text)
            .map(|m| (text[..m.start()].chars().count(), text[..m.end()].chars().count()))
            .collect();
        assert_eq!(find_breaks(&chars(&text)), expected_breaks, "text {:?}", text);
    }
}

#[test]
fn random_chunks_keep_their_shape() {
    for text in random_texts(2000, 11) {
        for max in [1usize, 4, 9, 25] {
            let chunks = chunk_text(&text, Some(max));
            assert!(!chunks.is_empty());
            if chunks != vec![String::new()] {
                for c in &chunks {
                    assert!(!c.is_empty());
                    assert_eq!(c.trim(), c.as_str());
                    assert!(c.len() <= max + 1 || !c.contains(char::is_whitespace));
                }
            }
            if text.chars().any(|c| !c.is_whitespace() && c != ',') {
                assert!(chunks.iter().all(|c| !c.is_empty()));
            }
        }
    }
}
