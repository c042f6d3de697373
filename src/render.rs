use vstd::prelude::*;

use crate::parsers::{
    in_class, is_blank, is_letter, is_punctuation, lemma_run_len_exact, lemma_strip_concat, lemma_strip_no_apostrophes,
    strip_apostrophes, tokenize, tokenize_from, tokens, token_at, CharClass,
};
use crate::rewrite::{default_entries, replace, rewrite};
use crate::text::{chars_of, string_of};
use crate::token::{char_of, Token, TokenModel, models};

verus! {

/// The text that one token is written as.
pub open spec fn render(t: TokenModel) -> Seq<char> {
    match t {
        TokenModel::Word(w) => w,
        TokenModel::WordPosessive { fixed, .. } => fixed,
        TokenModel::Punctuation(k) => seq![char_of(k)],
        TokenModel::Whitespace => seq![' '],
        TokenModel::Replaced { fixed, .. } => fixed,
        TokenModel::Unknown(c) => seq![c],
    }
}

/// The text of a sequence of tokens: each token's text, left to right.
pub open spec fn render_all(ts: Seq<TokenModel>) -> Seq<char>
    decreases ts.len(),
{
    if ts.len() == 0 {
        seq![]
    } else {
        render_all(ts.drop_last()) + render(ts.last())
    }
}

/// However long the run of blanks between two words, tokenizing gives the two
/// words with one `Whitespace` between them, and writing those tokens out
/// puts a single space between the words.
pub proof fn lemma_blank_run_collapses(u: Seq<char>, blanks: Seq<char>, v: Seq<char>)
    requires
        u.len() > 0,
        v.len() > 0,
        blanks.len() > 0,
        forall|j: int| 0 <= j < u.len() ==> is_letter(#[trigger] u[j]),
        forall|j: int| 0 <= j < v.len() ==> is_letter(#[trigger] v[j]),
        forall|j: int| 0 <= j < blanks.len() ==> #[trigger] blanks[j] == ' ' || blanks[j] == '\t',
    ensures
        tokenize(u + blanks + v) == seq![
            TokenModel::Word(u),
            TokenModel::Whitespace,
            TokenModel::Word(v),
        ],
        render_all(tokenize(u + blanks + v)) == u + seq![' '] + v,
{
    let s = u + blanks + v;
    let a = u.len() as int;
    let b = blanks.len() as int;
    let e = s.len() as int;
    assert forall|j: int| 0 <= j < a implies in_class(CharClass::Letter, #[trigger] s[j]) by {
        assert(s[j] == u[j]);
    }
    lemma_run_len_exact(s, 0, a, CharClass::Letter);
    assert(s[a] == blanks[0]);
    assert forall|j: int| a <= j < a + b implies in_class(CharClass::Blank, #[trigger] s[j]) by {
        assert(s[j] == blanks[j - a]);
    }
    assert(s[a + b] == v[0]);
    lemma_run_len_exact(s, a, b, CharClass::Blank);
    assert(!in_class(CharClass::Letter, s[a]));
    assert(!in_class(CharClass::WordChar, s[a]));
    lemma_run_len_exact(s, a, 0, CharClass::Letter);
    lemma_run_len_exact(s, a, 0, CharClass::WordChar);
    assert forall|j: int| a + b <= j < e implies in_class(CharClass::Letter, #[trigger] s[j]) by {
        assert(s[j] == v[j - a - b]);
    }
    lemma_run_len_exact(s, a + b, e - a - b, CharClass::Letter);
    assert(s.subrange(0, a) =~= u);
    assert(s.subrange(a + b, e) =~= v);
    assert(token_at(s, 0).0 == TokenModel::Word(u));
    assert(token_at(s, a).0 == TokenModel::Whitespace);
    assert(token_at(s, a + b).0 == TokenModel::Word(v));
    assert(tokenize_from(s, e) =~= Seq::<TokenModel>::empty());
    assert(tokenize_from(s, a + b) =~= seq![TokenModel::Word(v)]);
    assert(tokenize_from(s, a) =~= seq![TokenModel::Whitespace, TokenModel::Word(v)]);
    let ts = tokenize(s);
    assert(ts =~= seq![TokenModel::Word(u), TokenModel::Whitespace, TokenModel::Word(v)]);
    assert(ts.drop_last() =~= seq![TokenModel::Word(u), TokenModel::Whitespace]);
    assert(ts.drop_last().drop_last() =~= seq![TokenModel::Word(u)]);
    assert(ts.drop_last().drop_last().drop_last() =~= Seq::<TokenModel>::empty());
    let one = ts.drop_last().drop_last();
    assert(render_all(one.drop_last()) == Seq::<char>::empty());
    assert(one.last() == TokenModel::Word(u));
    assert(Seq::<char>::empty() + u =~= u);
    assert(render_all(one) =~= u);
    assert(render_all(ts.drop_last()) =~= u + seq![' ']);
    assert(render_all(ts) =~= u + seq![' '] + v);
}

/// A character that is no letter, apostrophe, blank or punctuation mark
/// between two words becomes an `Unknown` token of its own, and writing the
/// tokens out gives back the text exactly.
pub proof fn lemma_unknown_char_round_trips(u: Seq<char>, c: char, v: Seq<char>)
    requires
        u.len() > 0,
        v.len() > 0,
        forall|j: int| 0 <= j < u.len() ==> is_letter(#[trigger] u[j]),
        forall|j: int| 0 <= j < v.len() ==> is_letter(#[trigger] v[j]),
        !is_letter(c),
        c != '\'',
        !is_blank(c),
        !is_punctuation(c),
    ensures
        tokenize(u + seq![c] + v) == seq![
            TokenModel::Word(u),
            TokenModel::Unknown(c),
            TokenModel::Word(v),
        ],
        render_all(tokenize(u + seq![c] + v)) == u + seq![c] + v,
{
    let s = u + seq![c] + v;
    let a = u.len() as int;
    let e = s.len() as int;
    assert forall|j: int| 0 <= j < a implies in_class(CharClass::Letter, #[trigger] s[j]) by {
        assert(s[j] == u[j]);
    }
    assert(s[a] == c);
    lemma_run_len_exact(s, 0, a, CharClass::Letter);
    lemma_run_len_exact(s, a, 0, CharClass::Letter);
    lemma_run_len_exact(s, a, 0, CharClass::WordChar);
    lemma_run_len_exact(s, a, 0, CharClass::Blank);
    assert forall|j: int| a + 1 <= j < e implies in_class(CharClass::Letter, #[trigger] s[j]) by {
        assert(s[j] == v[j - a - 1]);
    }
    lemma_run_len_exact(s, a + 1, e - a - 1, CharClass::Letter);
    assert(s.subrange(0, a) =~= u);
    assert(s.subrange(a + 1, e) =~= v);
    assert(token_at(s, 0).0 == TokenModel::Word(u));
    assert(token_at(s, a).0 == TokenModel::Unknown(c));
    assert(token_at(s, a + 1).0 == TokenModel::Word(v));
    assert(tokenize_from(s, e) =~= Seq::<TokenModel>::empty());
    assert(tokenize_from(s, a + 1) =~= seq![TokenModel::Word(v)]);
    assert(tokenize_from(s, a) =~= seq![TokenModel::Unknown(c), TokenModel::Word(v)]);
    let ts = tokenize(s);
    assert(ts =~= seq![TokenModel::Word(u), TokenModel::Unknown(c), TokenModel::Word(v)]);
    let one = ts.drop_last().drop_last();
    assert(one =~= seq![TokenModel::Word(u)]);
    assert(render_all(one.drop_last()) == Seq::<char>::empty());
    assert(Seq::<char>::empty() + u =~= u);
    assert(render_all(one) =~= u);
    assert(ts.drop_last() =~= seq![TokenModel::Word(u), TokenModel::Unknown(c)]);
    assert(render_all(ts.drop_last()) =~= u + seq![c]);
    assert(render_all(ts) =~= u + seq![c] + v);
}

/// Letters, an apostrophe and more letters make one possessive word form,
/// which is written out without its apostrophe.
pub proof fn lemma_possessive_drops_apostrophe(u: Seq<char>, v: Seq<char>)
    requires
        u.len() > 0,
        forall|j: int| 0 <= j < u.len() ==> is_letter(#[trigger] u[j]),
        forall|j: int| 0 <= j < v.len() ==> is_letter(#[trigger] v[j]),
    ensures
        tokenize(u + seq!['\''] + v) == seq![
            TokenModel::WordPosessive { raw: u + seq!['\''] + v, fixed: u + v },
        ],
        render_all(tokenize(u + seq!['\''] + v)) == u + v,
{
    let s = u + seq!['\''] + v;
    let a = u.len() as int;
    let e = s.len() as int;
    assert forall|j: int| 0 <= j < a implies in_class(CharClass::Letter, #[trigger] s[j]) by {
        assert(s[j] == u[j]);
    }
    assert(s[a] == '\'');
    lemma_run_len_exact(s, 0, a, CharClass::Letter);
    assert forall|j: int| 0 <= j < e implies in_class(CharClass::WordChar, #[trigger] s[j]) by {
        if j < a {
            assert(s[j] == u[j]);
        } else if j > a {
            assert(s[j] == v[j - a - 1]);
        }
    }
    lemma_run_len_exact(s, 0, e, CharClass::WordChar);
    lemma_strip_no_apostrophes(u);
    lemma_strip_no_apostrophes(v);
    lemma_strip_concat(u, seq!['\'']);
    lemma_strip_concat(u + seq!['\''], v);
    assert(strip_apostrophes(s) =~= u + v);
    assert(s.subrange(0, e) =~= s);
    let t = TokenModel::WordPosessive { raw: s, fixed: u + v };
    assert(token_at(s, 0).0 == t);
    assert(tokenize_from(s, e) =~= Seq::<TokenModel>::empty());
    let ts = tokenize(s);
    assert(ts =~= seq![t]);
    assert(render_all(ts.drop_last()) == Seq::<char>::empty());
    assert(Seq::<char>::empty() + (u + v) =~= u + v);
}

fn push_all(out: &mut Vec<char>, cs: &Vec<char>)
    ensures
        final(out)@ == old(out)@ + cs@,
{
    let mut i: usize = 0;
    while i < cs.len()
        invariant
            i <= cs@.len(),
            out@ == old(out)@ + cs@.take(i as int),
        decreases cs@.len() - i,
    {
        out.push(cs[i]);
        i = i + 1;
        assert(out@ =~= old(out)@ + cs@.take(i as int));
    }
    assert(cs@.take(i as int) =~= cs@);
}

/// Writes `tokens` back out as text.
pub fn to_string(tokens: Vec<Token>) -> (r: String)
    ensures
        r@ == render_all(models(tokens@)),
{
    let mut out: Vec<char> = Vec::new();
    let mut i: usize = 0;
    while i < tokens.len()
        invariant
            i <= tokens@.len(),
            out@ == render_all(models(tokens@.take(i as int))),
        decreases tokens@.len() - i,
    {
        match &tokens[i] {
            Token::Word(w) => push_all(&mut out, &chars_of(w.as_str())),
            Token::WordPosessive { fixed, .. } => push_all(&mut out, &chars_of(fixed.as_str())),
            Token::Punctuation(kind) => out.push(char::from(*kind)),
            Token::Whitespace => out.push(' '),
            Token::Replaced { fixed, .. } => push_all(&mut out, &chars_of(fixed.as_str())),
            Token::Unknown(c) => out.push(*c),
        }
        proof {
            let done = models(tokens@.take(i + 1));
            assert(done.drop_last() =~= models(tokens@.take(i as int)));
            assert(done.last() == tokens@[i as int]@);
        }
        i = i + 1;
    }
    assert(tokens@.take(i as int) =~= tokens@);
    string_of(&out)
}

/// Tokenizes `text`, expands the known abbreviations and writes the result
/// back out as text.
pub fn clean(text: &str) -> (r: String)
    ensures
        r@ == render_all(rewrite(default_entries(), tokenize(text@))),
{
    to_string(replace(tokens(text)))
}

} // verus!
