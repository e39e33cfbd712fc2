use backend::token::next_token;
use backend::tokenize;

#[test]
fn tokens_of_a_spaced_modifier_tap() {
    assert_eq!(
        tokenize("MT ( LEFT_CTRL , A )").collect(),
        vec!["MT", "(", "LEFT_CTRL", ",", "A", ")"]
    );
}

#[test]
fn tokens_of_a_layer_tap_without_spaces() {
    assert_eq!(tokenize("LT(1,B)").collect(), vec!["LT", "(", "1", ",", "B", ")"]);
}

#[test]
fn empty_input_has_no_token() {
    assert_eq!(tokenize("").collect(), Vec::<&str>::new());
    assert_eq!(tokenize("").next(), None);
    assert_eq!(next_token(""), None);
}

#[test]
fn spaces_alone_have_no_token() {
    assert_eq!(tokenize(" ").collect(), Vec::<&str>::new());
    assert_eq!(tokenize("     ").collect(), Vec::<&str>::new());
    assert_eq!(next_token("   "), None);
}

#[test]
fn spaces_around_tokens_are_dropped() {
    assert_eq!(tokenize("  A   B  ").collect(), vec!["A", "B"]);
    assert_eq!(tokenize(" A").collect(), vec!["A"]);
    assert_eq!(tokenize("A ").collect(), vec!["A"]);
}

#[test]
fn each_separator_is_a_token_of_its_own() {
    assert_eq!(tokenize(",|()").collect(), vec![",", "|", "(", ")"]);
    assert_eq!(tokenize("((").collect(), vec!["(", "("]);
    assert_eq!(tokenize("a|b").collect(), vec!["a", "|", "b"]);
    assert_eq!(tokenize("a,b").collect(), vec!["a", ",", "b"]);
    assert_eq!(tokenize("x)y(z").collect(), vec!["x", ")", "y", "(", "z"]);
    assert_eq!(tokenize(" , ").collect(), vec![","]);
}

#[test]
fn only_the_space_separates_words() {
    assert_eq!(tokenize("a\tb").collect(), vec!["a\tb"]);
    assert_eq!(tokenize("a\nb").collect(), vec!["a\nb"]);
    assert_eq!(tokenize("a\u{a0}b").collect(), vec!["a\u{a0}b"]);
    assert_eq!(tokenize("a-b_c.d").collect(), vec!["a-b_c.d"]);
}

#[test]
fn tokens_may_hold_characters_of_several_bytes() {
    assert_eq!(tokenize("é(ß,日本)").collect(), vec!["é", "(", "ß", ",", "日本", ")"]);
    assert_eq!(tokenize(" äö üß ").collect(), vec!["äö", "üß"]);
}

#[test]
fn next_token_gives_the_token_and_the_text_behind_it() {
    assert_eq!(next_token("  MT(A)"), Some(("MT", "(A)")));
    assert_eq!(next_token("(A)"), Some(("(", "A)")));
    assert_eq!(next_token("A)"), Some(("A", ")")));
    assert_eq!(next_token(")"), Some((")", "")));
    assert_eq!(next_token("A  B"), Some(("A", "  B")));
    assert_eq!(next_token("AB"), Some(("AB", "")));
}

#[test]
fn the_cursor_goes_forward_one_token_at_a_time() {
    let mut tokens = tokenize("LT ( 1");
    assert_eq!(tokens.next(), Some("LT"));
    assert_eq!(tokens.rest, " ( 1");
    assert_eq!(tokens.next(), Some("("));
    assert_eq!(tokens.next(), Some("1"));
    assert_eq!(tokens.rest, "");
    assert_eq!(tokens.next(), None);
    assert_eq!(tokens.next(), None);
}

#[test]
fn tokenizing_again_starts_from_the_beginning() {
    let text = "MT(LEFT_ALT,X)";
    let first = tokenize(text).collect();
    let mut cursor = tokenize(text);
    cursor.next();
    cursor.next();
    assert_eq!(cursor.collect(), vec!["LEFT_ALT", ",", "X", ")"]);
    assert_eq!(tokenize(text).collect(), first);
}

/// The tokens of a text, found by searching the text for the next space or
/// separator.
fn tokens_by_search(text: &str) -> Vec<&str> {
    let separators = [',', '|', '(', ')'];
    let mut rest = text;
    let mut found = Vec::new();
    loop {
        rest = rest.trim_start_matches(' ');
        let first = match rest.chars().next() {
            Some(c) => c,
            None => return found,
        };
        let end = if separators.contains(&first) {
            1
        } else {
            rest.find(|c| c == ' ' || separators.contains(&c)).unwrap_or(rest.len())
        };
        found.push(&rest[..end]);
        rest = &rest[end..];
    }
}

#[test]
fn tokens_are_those_found_by_searching_the_text() {
    let alphabet = [' ', ',', '|', '(', ')', 'a', 'é'];
    let mut texts = vec![String::new()];
    let mut from = 0;
    for _ in 0..5 {
        let until = texts.len();
        for i in from..until {
            for c in alphabet {
                let mut longer = texts[i].clone();
                longer.push(c);
                texts.push(longer);
            }
        }
        from = until;
    }
    assert_eq!(texts.len(), 1 + 7 + 49 + 343 + 2401 + 16807);
    for text in &texts {
        assert_eq!(tokenize(text).collect(), tokens_by_search(text));
    }
}

#[test]
fn tokens_put_together_are_the_text_without_spaces() {
    for text in ["", "  ", "MT ( LEFT_CTRL , A )", " a  b|c ", "LT(1,B)", "é ( ß"] {
        let joined: String = tokenize(text).collect().concat();
        let without_spaces: String = text.chars().filter(|c| *c != ' ').collect();
        assert_eq!(joined, without_spaces);
    }
}

#[test]
fn no_token_is_empty_or_holds_a_space() {
    for text in ["", "  ", "MT ( LEFT_CTRL , A )", " a  b|c ", "((  ))", "a,b , c"] {
        for token in tokenize(text).collect() {
            assert!(!token.is_empty());
            assert!(!token.contains(' '));
            let separator = [",", "|", "(", ")"].contains(&token);
            let word = !token.contains(|c| [',', '|', '(', ')'].contains(&c));
            assert!(separator || word);
        }
    }
}
