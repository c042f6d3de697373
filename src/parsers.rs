use vstd::prelude::*;

use crate::text::{chars_of, string_of};
use crate::token::{char_of, kind_of, PunctuationKind, Token, TokenModel, models};

verus! {

/// A class of characters that a run of the scanner is made of.
#[derive(Clone, Copy)]
pub enum CharClass {
    /// An ASCII letter.
    Letter,
    /// An ASCII letter or an apostrophe.
    WordChar,
    /// A space or a tab.
    Blank,
}

pub open spec fn is_letter(c: char) -> bool {
    ('a' <= c && c <= 'z') || ('A' <= c && c <= 'Z')
}

pub open spec fn is_blank(c: char) -> bool {
    c == ' ' || c == '\t'
}

pub open spec fn is_punctuation(c: char) -> bool {
    c == '.' || c == ',' || c == '!' || c == '?'
}

pub open spec fn in_class(k: CharClass, c: char) -> bool {
    match k {
        CharClass::Letter => is_letter(c),
        CharClass::WordChar => is_letter(c) || c == '\'',
        CharClass::Blank => is_blank(c),
    }
}

/// The length of the longest run of characters of class `k` in `s` from `i` on.
pub open spec fn run_len(s: Seq<char>, i: int, k: CharClass) -> nat
    decreases s.len() - i,
{
    if 0 <= i < s.len() && in_class(k, s[i]) {
        1 + run_len(s, i + 1, k)
    } else {
        0
    }
}

/// `w` without its apostrophes.
pub open spec fn strip_apostrophes(w: Seq<char>) -> Seq<char> {
    w.filter(|c: char| c != '\'')
}

/// The token that starts at position `i` of `s`, and how many characters it takes.
/// The rules are tried in order and the first that matches wins.
pub open spec fn token_at(s: Seq<char>, i: int) -> (TokenModel, nat) {
    let a = run_len(s, i, CharClass::Letter);
    let p = run_len(s, i, CharClass::WordChar);
    let b = run_len(s, i, CharClass::Blank);
    if a > 0 && !(i + a < s.len() && s[i + a] == '\'') {
        (TokenModel::Word(s.subrange(i, i + a)), a)
    } else if p > 0 {
        let raw = s.subrange(i, i + p);
        (TokenModel::WordPosessive { raw, fixed: strip_apostrophes(raw) }, p)
    } else if b > 0 {
        (TokenModel::Whitespace, b)
    } else if is_punctuation(s[i]) {
        (TokenModel::Punctuation(kind_of(s[i])), 1)
    } else {
        (TokenModel::Unknown(s[i]), 1)
    }
}

/// The tokens of `s` from position `i` on.
pub open spec fn tokenize_from(s: Seq<char>, i: int) -> Seq<TokenModel>
    decreases s.len() - i,
    via tokenize_from_decreases
{
    if 0 <= i < s.len() {
        seq![token_at(s, i).0] + tokenize_from(s, i + token_at(s, i).1)
    } else {
        seq![]
    }
}

#[via_fn]
proof fn tokenize_from_decreases(s: Seq<char>, i: int) {
    if 0 <= i < s.len() {
        lemma_token_at_len(s, i);
    }
}

/// The tokens of the whole of `s`.
pub open spec fn tokenize(s: Seq<char>) -> Seq<TokenModel> {
    tokenize_from(s, 0)
}

pub proof fn lemma_run_len(s: Seq<char>, i: int, k: CharClass)
    requires
        0 <= i <= s.len(),
    ensures
        run_len(s, i, k) <= s.len() - i,
        forall|j: int| i <= j < i + run_len(s, i, k) ==> in_class(k, #[trigger] s[j]),
        i + run_len(s, i, k) < s.len() ==> !in_class(k, s[i + run_len(s, i, k)]),
    decreases s.len() - i,
{
    if i < s.len() && in_class(k, s[i]) {
        lemma_run_len(s, i + 1, k);
    }
}

/// A stretch of class `k` that ends at the end of `s` or before a character
/// outside `k` is a longest run.
pub proof fn lemma_run_len_exact(s: Seq<char>, i: int, m: int, k: CharClass)
    requires
        0 <= i,
        0 <= m,
        i + m <= s.len(),
        forall|j: int| i <= j < i + m ==> in_class(k, #[trigger] s[j]),
        i + m == s.len() || !in_class(k, s[i + m]),
    ensures
        run_len(s, i, k) == m,
    decreases m,
{
    if m > 0 {
        lemma_run_len_exact(s, i + 1, m - 1, k);
    }
}

/// Text without apostrophes is left as it is by `strip_apostrophes`.
pub proof fn lemma_strip_no_apostrophes(w: Seq<char>)
    requires
        forall|j: int| 0 <= j < w.len() ==> #[trigger] w[j] != '\'',
    ensures
        strip_apostrophes(w) == w,
    decreases w.len(),
{
    reveal(Seq::filter);
    if w.len() > 0 {
        lemma_strip_no_apostrophes(w.drop_last());
        assert(w.drop_last().push(w.last()) =~= w);
    }
}

/// `strip_apostrophes` works piece by piece, and takes a lone apostrophe away.
pub proof fn lemma_strip_concat(a: Seq<char>, b: Seq<char>)
    ensures
        strip_apostrophes(a + b) == strip_apostrophes(a) + strip_apostrophes(b),
        strip_apostrophes(seq!['\'']) == Seq::<char>::empty(),
{
    Seq::filter_distributes_over_add(a, b, |c: char| c != '\'');
    reveal(Seq::filter);
    let q = seq!['\''];
    assert(q.drop_last() =~= Seq::<char>::empty());
    assert(strip_apostrophes(Seq::<char>::empty()) =~= Seq::<char>::empty());
    assert(strip_apostrophes(q) == strip_apostrophes(q.drop_last()));
}

pub proof fn lemma_token_at_len(s: Seq<char>, i: int)
    requires
        0 <= i < s.len(),
    ensures
        0 < token_at(s, i).1 <= s.len() - i,
{
    lemma_run_len(s, i, CharClass::Letter);
    lemma_run_len(s, i, CharClass::WordChar);
    lemma_run_len(s, i, CharClass::Blank);
}

/// Whether `piece` is a stretch of input that token `t` can stand for.
pub open spec fn covers(t: TokenModel, piece: Seq<char>) -> bool {
    match t {
        TokenModel::Word(w) => piece == w && forall|j: int|
            0 <= j < piece.len() ==> is_letter(#[trigger] piece[j]),
        TokenModel::WordPosessive { raw, fixed } => piece == raw && fixed == strip_apostrophes(
            raw,
        ) && forall|j: int| 0 <= j < piece.len() ==> in_class(CharClass::WordChar, #[trigger] piece[j]),
        TokenModel::Punctuation(k) => piece == seq![char_of(k)],
        TokenModel::Whitespace => forall|j: int|
            0 <= j < piece.len() ==> is_blank(#[trigger] piece[j]),
        TokenModel::Replaced { .. } => false,
        TokenModel::Unknown(c) => piece == seq![c],
    }
}

/// Whether `ts` cut `s` into consecutive, non-empty stretches, one for each
/// token in order, each of which the token covers.
pub open spec fn partitions(ts: Seq<TokenModel>, s: Seq<char>) -> bool
    decreases ts.len(),
{
    if ts.len() == 0 {
        s.len() == 0
    } else {
        exists|n: int|
            0 < n <= s.len() && #[trigger] covers(ts[0], s.take(n)) && partitions(
                ts.drop_first(),
                s.skip(n),
            )
    }
}

proof fn lemma_tokenize_from_partitions(s: Seq<char>, i: int)
    requires
        0 <= i <= s.len(),
    ensures
        partitions(tokenize_from(s, i), s.skip(i)),
    decreases s.len() - i,
{
    if i < s.len() {
        let t = token_at(s, i).0;
        let n = token_at(s, i).1 as int;
        lemma_token_at_len(s, i);
        lemma_run_len(s, i, CharClass::Letter);
        lemma_run_len(s, i, CharClass::WordChar);
        lemma_run_len(s, i, CharClass::Blank);
        lemma_tokenize_from_partitions(s, i + n);
        let ts = tokenize_from(s, i);
        let rest = s.skip(i);
        assert(ts[0] == t);
        assert(ts.drop_first() =~= tokenize_from(s, i + n));
        assert(rest.take(n) =~= s.subrange(i, i + n));
        assert(rest.skip(n) =~= s.skip(i + n));
        let piece = rest.take(n);
        assert(forall|j: int| 0 <= j < n ==> #[trigger] piece[j] == s[i + j]);
        let a = run_len(s, i, CharClass::Letter);
        let p = run_len(s, i, CharClass::WordChar);
        let b = run_len(s, i, CharClass::Blank);
        if a > 0 && !(i + a < s.len() && s[i + a] == '\'') {
            assert forall|j: int| 0 <= j < piece.len() implies is_letter(#[trigger] piece[j]) by {
                assert(in_class(CharClass::Letter, s[i + j]));
            }
        } else if p > 0 {
            assert forall|j: int| 0 <= j < piece.len() implies in_class(
                CharClass::WordChar,
                #[trigger] piece[j],
            ) by {
                assert(in_class(CharClass::WordChar, s[i + j]));
            }
        } else if b > 0 {
            assert forall|j: int| 0 <= j < piece.len() implies is_blank(#[trigger] piece[j]) by {
                assert(in_class(CharClass::Blank, s[i + j]));
            }
        } else {
            assert(piece =~= seq![s[i]]);
        }
        assert(covers(t, piece));
    } else {
        assert(s.skip(i).len() == 0);
    }
}

/// Tokenizing never fails and loses nothing: the tokens of `s` cut it into
/// consecutive stretches, with no gap and no overlap, each of which its token
/// stands for.
pub proof fn lemma_tokenize_partitions(s: Seq<char>)
    ensures
        partitions(tokenize(s), s),
{
    lemma_tokenize_from_partitions(s, 0);
    assert(s.skip(0) =~= s);
}

fn in_class_exec(k: CharClass, c: char) -> (r: bool)
    ensures
        r == in_class(k, c),
{
    match k {
        CharClass::Letter => ('a' <= c && c <= 'z') || ('A' <= c && c <= 'Z'),
        CharClass::WordChar => ('a' <= c && c <= 'z') || ('A' <= c && c <= 'Z') || c == '\'',
        CharClass::Blank => c == ' ' || c == '\t',
    }
}

/// The end of the longest run of class `k` in `s` from `i` on.
fn run_end(s: &Vec<char>, i: usize, k: CharClass) -> (r: usize)
    requires
        i <= s@.len(),
    ensures
        r == i + run_len(s@, i as int, k),
        r <= s@.len(),
{
    let mut j: usize = i;
    while j < s.len() && in_class_exec(k, s[j])
        invariant
            i <= j <= s@.len(),
            run_len(s@, i as int, k) == (j - i) + run_len(s@, j as int, k),
        decreases s@.len() - j,
    {
        j = j + 1;
    }
    j
}

/// The characters of `s` from `i` up to `j`.
fn slice_of(s: &Vec<char>, i: usize, j: usize) -> (r: Vec<char>)
    requires
        i <= j <= s@.len(),
    ensures
        r@ == s@.subrange(i as int, j as int),
{
    let mut out: Vec<char> = Vec::new();
    let mut k: usize = i;
    while k < j
        invariant
            i <= k <= j <= s@.len(),
            out@ == s@.subrange(i as int, k as int),
        decreases j - k,
    {
        out.push(s[k]);
        k = k + 1;
        assert(out@ =~= s@.subrange(i as int, k as int));
    }
    out
}

/// The characters of `w` that are not apostrophes.
fn strip(w: &Vec<char>) -> (r: Vec<char>)
    ensures
        r@ == strip_apostrophes(w@),
{
    let mut out: Vec<char> = Vec::new();
    let mut k: usize = 0;
    while k < w.len()
        invariant
            k <= w@.len(),
            out@ == strip_apostrophes(w@.take(k as int)),
        decreases w@.len() - k,
    {
        proof {
            reveal(Seq::filter);
            assert(w@.take(k + 1).drop_last() =~= w@.take(k as int));
        }
        if w[k] != '\'' {
            out.push(w[k]);
        }
        k = k + 1;
    }
    assert(w@.take(w@.len() as int) =~= w@);
    out
}

/// The possessive word form that starts at position `i` of `s`, with the
/// position where it ends; `None` where no letter or apostrophe stands there.
fn possessive_at(s: &Vec<char>, i: usize) -> (r: Option<(Token, usize)>)
    requires
        i <= s@.len(),
    ensures
        run_len(s@, i as int, CharClass::WordChar) == 0 ==> r is None,
        run_len(s@, i as int, CharClass::WordChar) > 0 ==> r is Some && ({
            let p = run_len(s@, i as int, CharClass::WordChar);
            let raw = s@.subrange(i as int, i + p);
            &&& r->Some_0.1 == i + p
            &&& r->Some_0.0@ == (TokenModel::WordPosessive { raw, fixed: strip_apostrophes(raw) })
        }),
{
    let end = run_end(s, i, CharClass::WordChar);
    if end == i {
        None
    } else {
        let raw = slice_of(s, i, end);
        let fixed = strip(&raw);
        Some((Token::WordPosessive { raw: string_of(&raw), fixed: string_of(&fixed) }, end))
    }
}

/// Reads a possessive word form, a run of letters and apostrophes, at the
/// start of `input`. Gives back the rest of the input and the token, or
/// `None` where the input starts with neither.
pub fn possessive(input: &str) -> (r: Option<(String, Token)>)
    ensures
        run_len(input@, 0, CharClass::WordChar) == 0 ==> r is None,
        run_len(input@, 0, CharClass::WordChar) > 0 ==> r is Some && ({
            let p = run_len(input@, 0, CharClass::WordChar);
            let raw = input@.take(p as int);
            &&& r->Some_0.0@ == input@.skip(p as int)
            &&& r->Some_0.1@ == (TokenModel::WordPosessive { raw, fixed: strip_apostrophes(raw) })
        }),
{
    let cs = chars_of(input);
    match possessive_at(&cs, 0) {
        None => None,
        Some((t, end)) => {
            proof {
                lemma_run_len(cs@, 0, CharClass::WordChar);
                assert(cs@.subrange(0, end as int) =~= cs@.take(end as int));
            }
            let rest = slice_of(&cs, end, cs.len());
            assert(rest@ =~= cs@.skip(end as int));
            Some((string_of(&rest), t))
        },
    }
}

/// The token that starts at position `i` of `s`, and the position where it ends.
fn next_token(s: &Vec<char>, i: usize) -> (r: (Token, usize))
    requires
        i < s@.len(),
    ensures
        r.0@ == token_at(s@, i as int).0,
        r.1 == i + token_at(s@, i as int).1,
{
    let a = run_end(s, i, CharClass::Letter);
    if a > i && !(a < s.len() && s[a] == '\'') {
        let w = slice_of(s, i, a);
        return (Token::Word(string_of(&w)), a);
    }
    if let Some(found) = possessive_at(s, i) {
        return found;
    }
    let b = run_end(s, i, CharClass::Blank);
    if b > i {
        return (Token::Whitespace, b);
    }
    let len = s.len();
    proof {
        assert(i + 1 <= len);
    }
    let c = s[i];
    if c == '.' || c == ',' || c == '!' || c == '?' {
        (Token::Punctuation(PunctuationKind::from(c)), i + 1)
    } else {
        (Token::Unknown(c), i + 1)
    }
}

/// Splits `input` into tokens, from its first character to its last.
pub fn tokens(input: &str) -> (r: Vec<Token>)
    ensures
        models(r@) == tokenize(input@),
{
    let cs = chars_of(input);
    let mut out: Vec<Token> = Vec::new();
    let mut i: usize = 0;
    while i < cs.len()
        invariant
            i <= cs@.len(),
            tokenize(cs@) == models(out@) + tokenize_from(cs@, i as int),
        decreases cs@.len() - i,
    {
        let (t, j) = next_token(&cs, i);
        proof {
            lemma_token_at_len(cs@, i as int);
        }
        let ghost before = out@;
        out.push(t);
        proof {
            assert(models(out@) =~= models(before).push(t@));
            assert(models(before) + tokenize_from(cs@, i as int) =~= models(out@)
                + tokenize_from(cs@, j as int));
        }
        i = j;
    }
    assert(models(out@) + tokenize_from(cs@, i as int) =~= models(out@));
    out
}

} // verus!
