use vstd::prelude::*;

verus! {

/// The class of a single punctuation character.
#[derive(Debug, Clone, Copy, PartialEq, Eq, Structural)]
pub enum PunctuationKind {
    Stop,
    Comma,
    Exclamation,
    Question,
    Unknown(char),
}

/// The kind that a character is given when read as punctuation.
pub open spec fn kind_of(c: char) -> PunctuationKind {
    if c == '.' {
        PunctuationKind::Stop
    } else if c == ',' {
        PunctuationKind::Comma
    } else if c == '!' {
        PunctuationKind::Exclamation
    } else if c == '?' {
        PunctuationKind::Question
    } else {
        PunctuationKind::Unknown(c)
    }
}

/// The character that a punctuation kind is written as.
pub open spec fn char_of(k: PunctuationKind) -> char {
    match k {
        PunctuationKind::Stop => '.',
        PunctuationKind::Comma => ',',
        PunctuationKind::Exclamation => '!',
        PunctuationKind::Question => '?',
        PunctuationKind::Unknown(c) => c,
    }
}

impl From<char> for PunctuationKind {
    fn from(raw: char) -> (r: PunctuationKind)
        ensures
            r == kind_of(raw),
    {
        match raw {
            '.' => PunctuationKind::Stop,
            ',' => PunctuationKind::Comma,
            '!' => PunctuationKind::Exclamation,
            '?' => PunctuationKind::Question,
            c => PunctuationKind::Unknown(c),
        }
    }
}

impl vstd::std_specs::convert::FromSpecImpl<char> for PunctuationKind {
    open spec fn obeys_from_spec() -> bool {
        true
    }

    open spec fn from_spec(raw: char) -> PunctuationKind {
        kind_of(raw)
    }
}

impl From<PunctuationKind> for char {
    fn from(raw: PunctuationKind) -> (r: char)
        ensures
            r == char_of(raw),
    {
        match raw {
            PunctuationKind::Stop => '.',
            PunctuationKind::Comma => ',',
            PunctuationKind::Exclamation => '!',
            PunctuationKind::Question => '?',
            PunctuationKind::Unknown(c) => c,
        }
    }
}

impl vstd::std_specs::convert::FromSpecImpl<PunctuationKind> for char {
    open spec fn obeys_from_spec() -> bool {
        true
    }

    open spec fn from_spec(raw: PunctuationKind) -> char {
        char_of(raw)
    }
}

/// One lexical unit of a text.
#[derive(Debug, Clone, PartialEq, Eq)]
pub enum Token {
    /// A run of letters that no apostrophe follows.
    Word(String),
    /// A run of letters and apostrophes; `fixed` is `raw` without its apostrophes.
    WordPosessive { raw: String, fixed: String },
    /// A single punctuation character.
    Punctuation(PunctuationKind),
    /// A run of blanks, kept as one marker.
    Whitespace,
    /// A word found in the replacement table, with the expansion it was given.
    Replaced { raw: String, fixed: String },
    /// Any other single character.
    Unknown(char),
}

/// What a token stands for, with its text as sequences of characters.
pub enum TokenModel {
    Word(Seq<char>),
    WordPosessive { raw: Seq<char>, fixed: Seq<char> },
    Punctuation(PunctuationKind),
    Whitespace,
    Replaced { raw: Seq<char>, fixed: Seq<char> },
    Unknown(char),
}

impl View for Token {
    type V = TokenModel;

    open spec fn view(&self) -> TokenModel {
        match self {
            Token::Word(w) => TokenModel::Word(w@),
            Token::WordPosessive { raw, fixed } => TokenModel::WordPosessive {
                raw: raw@,
                fixed: fixed@,
            },
            Token::Punctuation(k) => TokenModel::Punctuation(*k),
            Token::Whitespace => TokenModel::Whitespace,
            Token::Replaced { raw, fixed } => TokenModel::Replaced { raw: raw@, fixed: fixed@ },
            Token::Unknown(c) => TokenModel::Unknown(*c),
        }
    }
}

/// The models of a sequence of tokens.
pub open spec fn models(ts: Seq<Token>) -> Seq<TokenModel> {
    ts.map_values(|t: Token| t@)
}

} // verus!
