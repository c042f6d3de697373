use textopia::parsers::possessive;
use textopia::{clean, replace, replace_with, to_string, tokens, PunctuationKind, Replacements, Token};

fn word(s: &str) -> Token {
    Token::Word(s.to_string())
}

fn posessive(raw: &str, fixed: &str) -> Token {
    Token::WordPosessive { raw: raw.to_string(), fixed: fixed.to_string() }
}

fn replaced(raw: &str, fixed: &str) -> Token {
    Token::Replaced { raw: raw.to_string(), fixed: fixed.to_string() }
}

#[test]
fn empty_input_has_no_tokens() {
    assert_eq!(tokens(""), vec![]);
    assert_eq!(to_string(vec![]), "");
    assert_eq!(clean(""), "");
}

#[test]
fn blanks_only_make_one_token() {
    assert_eq!(tokens("   "), vec![Token::Whitespace]);
    assert_eq!(tokens(" \t "), vec![Token::Whitespace]);
    assert_eq!(to_string(tokens(" \t ")), " ");
}

#[test]
fn control_and_non_ascii_characters_are_unknown() {
    assert_eq!(
        tokens("\u{1}\né"),
        vec![Token::Unknown('\u{1}'), Token::Unknown('\n'), Token::Unknown('é')]
    );
    assert_eq!(to_string(tokens("x\u{1}\né")), "x\u{1}\né");
}

#[test]
fn every_character_lands_in_some_token() {
    let input = "Hi, it's 3pm\tnow!?";
    let ts = tokens(input);
    assert_eq!(
        ts,
        vec![
            word("Hi"),
            Token::Punctuation(PunctuationKind::Comma),
            Token::Whitespace,
            posessive("it's", "its"),
            Token::Whitespace,
            Token::Unknown('3'),
            word("pm"),
            Token::Whitespace,
            word("now"),
            Token::Punctuation(PunctuationKind::Exclamation),
            Token::Punctuation(PunctuationKind::Question),
        ]
    );
}

#[test]
fn whitespace_runs_collapse() {
    let ts = tokens("a   b");
    assert_eq!(ts, vec![word("a"), Token::Whitespace, word("b")]);
    assert_eq!(to_string(ts), "a b");
}

#[test]
fn tab_is_a_blank() {
    assert_eq!(tokens("a\tb"), vec![word("a"), Token::Whitespace, word("b")]);
}

#[test]
fn apostrophe_makes_a_possessive() {
    let ts = tokens("cat's");
    assert_eq!(ts, vec![posessive("cat's", "cats")]);
    assert_eq!(to_string(ts), "cats");
}

#[test]
fn trailing_and_leading_apostrophes() {
    assert_eq!(tokens("dogs'"), vec![posessive("dogs'", "dogs")]);
    assert_eq!(tokens("'tis"), vec![posessive("'tis", "tis")]);
    assert_eq!(tokens("'"), vec![posessive("'", "")]);
}

#[test]
fn punctuation_is_classified() {
    let ts = tokens(&"Wait! No.".to_lowercase());
    assert_eq!(
        ts,
        vec![
            word("wait"),
            Token::Punctuation(PunctuationKind::Exclamation),
            Token::Whitespace,
            word("no"),
            Token::Punctuation(PunctuationKind::Stop),
        ]
    );
}

#[test]
fn punctuation_kinds_and_characters() {
    assert_eq!(PunctuationKind::from('.'), PunctuationKind::Stop);
    assert_eq!(PunctuationKind::from(','), PunctuationKind::Comma);
    assert_eq!(PunctuationKind::from('!'), PunctuationKind::Exclamation);
    assert_eq!(PunctuationKind::from('?'), PunctuationKind::Question);
    assert_eq!(PunctuationKind::from(';'), PunctuationKind::Unknown(';'));
    assert_eq!(char::from(PunctuationKind::Stop), '.');
    assert_eq!(char::from(PunctuationKind::Comma), ',');
    assert_eq!(char::from(PunctuationKind::Exclamation), '!');
    assert_eq!(char::from(PunctuationKind::Question), '?');
    assert_eq!(char::from(PunctuationKind::Unknown(';')), ';');
    assert_eq!(to_string(vec![Token::Punctuation(PunctuationKind::Unknown(';'))]), ";");
}

#[test]
fn rewrite_leaves_non_matches_alone() {
    let ts = vec![
        word("smith"),
        posessive("smith's", "smiths"),
        Token::Whitespace,
        Token::Punctuation(PunctuationKind::Stop),
        Token::Unknown('@'),
        word("MR"),
    ];
    assert_eq!(replace(ts.clone()), ts);
}

#[test]
fn rewrite_is_idempotent() {
    let once = replace(tokens("mr smith's phd, bsc mrs."));
    let twice = replace(once.clone());
    assert_eq!(once, twice);
    assert_eq!(replace(vec![replaced("mr", "mister")]), vec![replaced("mr", "mister")]);
}

#[test]
fn all_table_entries_expand() {
    assert_eq!(
        replace(tokens("mr mrs phd bsc")),
        vec![
            replaced("mr", "mister"),
            Token::Whitespace,
            replaced("mrs", "miss"),
            Token::Whitespace,
            replaced("phd", "doctor"),
            Token::Whitespace,
            replaced("bsc", "bachelor"),
        ]
    );
}

#[test]
fn possessive_is_looked_up_without_apostrophes() {
    assert_eq!(replace(tokens("mr's")), vec![replaced("mr's", "miss")]);
    assert_eq!(replace(tokens("ph'd")), vec![replaced("ph'd", "doctor")]);
    assert_eq!(replace(tokens("phd's")), vec![posessive("phd's", "phds")]);
    assert_eq!(clean("ph'd"), "doctor");
}

#[test]
fn end_to_end() {
    let ts = tokens("mr smith phd");
    assert_eq!(
        ts,
        vec![word("mr"), Token::Whitespace, word("smith"), Token::Whitespace, word("phd")]
    );
    let rs = replace(ts);
    assert_eq!(
        rs,
        vec![
            replaced("mr", "mister"),
            Token::Whitespace,
            word("smith"),
            Token::Whitespace,
            replaced("phd", "doctor"),
        ]
    );
    assert_eq!(to_string(rs), "mister smith doctor");
    assert_eq!(clean("mr smith phd"), "mister smith doctor");
}

#[test]
fn unknown_characters_round_trip() {
    let ts = tokens("a@b");
    assert_eq!(ts, vec![word("a"), Token::Unknown('@'), word("b")]);
    assert_eq!(to_string(ts), "a@b");
}

#[test]
fn possessive_reads_a_prefix() {
    assert_eq!(
        possessive("cat's tail"),
        Some((" tail".to_string(), posessive("cat's", "cats")))
    );
    assert_eq!(possessive("word"), Some(("".to_string(), posessive("word", "word"))));
    assert_eq!(possessive("9 lives"), None);
    assert_eq!(possessive(""), None);
}

#[test]
fn clean_keeps_other_text() {
    assert_eq!(clean("Hello, how's the comma?"), "Hello, hows the comma?");
    assert_eq!(clean("mr.  bsc!"), "mister. bachelor!");
}

#[test]
fn mixed_blank_run_collapses() {
    let ts = tokens("ab \t  cd");
    assert_eq!(ts, vec![word("ab"), Token::Whitespace, word("cd")]);
    assert_eq!(to_string(ts), "ab cd");
}

#[test]
fn other_symbols_round_trip() {
    let ts = tokens("ab#cd");
    assert_eq!(ts, vec![word("ab"), Token::Unknown('#'), word("cd")]);
    assert_eq!(to_string(ts), "ab#cd");
}

#[test]
fn contraction_loses_its_apostrophe() {
    let ts = tokens("don't");
    assert_eq!(ts, vec![posessive("don't", "dont")]);
    assert_eq!(to_string(ts), "dont");
}

#[test]
fn empty_table_changes_nothing() {
    let ts = tokens("mr smith phd");
    assert_eq!(replace_with(&Replacements::new(), ts.clone()), ts);
}

#[test]
fn custom_table_is_used() {
    let mut table = Replacements::new();
    table.add("dr".to_string(), "doctor".to_string());
    assert_eq!(
        replace_with(&table, tokens("dr mr")),
        vec![replaced("dr", "doctor"), Token::Whitespace, word("mr")]
    );
}

#[test]
fn later_entry_wins() {
    let mut table = Replacements::defaults();
    table.add("mr".to_string(), "sir".to_string());
    assert_eq!(replace_with(&table, tokens("mr")), vec![replaced("mr", "sir")]);
    assert_eq!(replace_with(&Replacements::defaults(), tokens("mr")), vec![replaced("mr", "mister")]);
}
