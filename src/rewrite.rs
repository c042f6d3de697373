use vstd::prelude::*;

use rayon::iter::{IntoParallelIterator, ParallelIterator};

use crate::text::{chars_of, string_of};
use crate::token::{Token, TokenModel, models};

verus! {

/// A table of abbreviations and their expansions, as (key, expansion) pairs.
/// Keys are matched exactly; where a key occurs more than once, the entry
/// added last wins.
pub struct Replacements {
    entries: Vec<(String, String)>,
}

impl View for Replacements {
    type V = Seq<(Seq<char>, Seq<char>)>;

    closed spec fn view(&self) -> Seq<(Seq<char>, Seq<char>)> {
        self.entries@.map_values(|e: (String, String)| (e.0@, e.1@))
    }
}

/// The expansion that `entries` give to `key`: that of the last entry with
/// this key, if there is one.
pub open spec fn lookup(entries: Seq<(Seq<char>, Seq<char>)>, key: Seq<char>) -> Option<Seq<char>>
    decreases entries.len(),
{
    if entries.len() == 0 {
        None
    } else if entries.last().0 == key {
        Some(entries.last().1)
    } else {
        lookup(entries.drop_last(), key)
    }
}

/// The table that the library ships with.
pub open spec fn default_entries() -> Seq<(Seq<char>, Seq<char>)> {
    seq![
        (seq!['m', 'r'], seq!['m', 'i', 's', 't', 'e', 'r']),
        (seq!['m', 'r', 's'], seq!['m', 'i', 's', 's']),
        (seq!['p', 'h', 'd'], seq!['d', 'o', 'c', 't', 'o', 'r']),
        (seq!['b', 's', 'c'], seq!['b', 'a', 'c', 'h', 'e', 'l', 'o', 'r']),
    ]
}

/// The text under which a token is looked up in the table: a word's own
/// text, a possessive form without its apostrophes; other tokens have none.
pub open spec fn lookup_key(t: TokenModel) -> Option<Seq<char>> {
    match t {
        TokenModel::Word(w) => Some(w),
        TokenModel::WordPosessive { fixed, .. } => Some(fixed),
        _ => None,
    }
}

/// What the rewriter makes of one token under the table `table`.
pub open spec fn rewrite_token(table: Seq<(Seq<char>, Seq<char>)>, t: TokenModel) -> TokenModel {
    match t {
        TokenModel::Word(w) => match lookup(table, w) {
            Some(e) => TokenModel::Replaced { raw: w, fixed: e },
            None => t,
        },
        TokenModel::WordPosessive { raw, fixed } => match lookup(table, fixed) {
            Some(e) => TokenModel::Replaced { raw, fixed: e },
            None => t,
        },
        _ => t,
    }
}

/// What the rewriter makes of a sequence of tokens: each token on its own,
/// in place.
pub open spec fn rewrite(table: Seq<(Seq<char>, Seq<char>)>, ts: Seq<TokenModel>) -> Seq<
    TokenModel,
> {
    ts.map_values(|t: TokenModel| rewrite_token(table, t))
}

/// A token with no table entry under its key passes through unchanged.
pub proof fn lemma_rewrite_keeps_unmatched(table: Seq<(Seq<char>, Seq<char>)>, t: TokenModel)
    requires
        lookup_key(t) is None || lookup(table, lookup_key(t)->Some_0) is None,
    ensures
        rewrite_token(table, t) == t,
{
}

/// Rewriting a rewritten sequence again changes nothing.
pub proof fn lemma_rewrite_idempotent(table: Seq<(Seq<char>, Seq<char>)>, ts: Seq<TokenModel>)
    ensures
        rewrite(table, rewrite(table, ts)) == rewrite(table, ts),
{
    assert(rewrite(table, rewrite(table, ts)) =~= rewrite(table, ts));
}

fn same_chars(a: &Vec<char>, b: &Vec<char>) -> (r: bool)
    ensures
        r == (a@ == b@),
{
    if a.len() != b.len() {
        return false;
    }
    let mut i: usize = 0;
    while i < a.len()
        invariant
            i <= a@.len() == b@.len(),
            a@.take(i as int) == b@.take(i as int),
        decreases a@.len() - i,
    {
        if a[i] != b[i] {
            return false;
        }
        assert(a@.take(i + 1) =~= a@.take(i as int).push(a@[i as int]));
        assert(b@.take(i + 1) =~= b@.take(i as int).push(b@[i as int]));
        i = i + 1;
    }
    assert(a@.take(i as int) =~= a@);
    assert(b@.take(i as int) =~= b@);
    true
}

impl Replacements {
    /// A table with no entries.
    pub fn new() -> (r: Replacements)
        ensures
            r@ == Seq::<(Seq<char>, Seq<char>)>::empty(),
    {
        let r = Replacements { entries: Vec::new() };
        assert(r@ =~= Seq::<(Seq<char>, Seq<char>)>::empty());
        r
    }

    /// Adds an entry; it wins over any earlier entry with the same key.
    pub fn add(&mut self, key: String, expansion: String)
        ensures
            final(self)@ == old(self)@.push((key@, expansion@)),
    {
        let ghost before = self@;
        self.entries.push((key, expansion));
        assert(self@ =~= before.push((key@, expansion@)));
    }

    /// The table of `mr`, `mrs`, `phd` and `bsc`.
    pub fn defaults() -> (r: Replacements)
        ensures
            r@ == default_entries(),
    {
        let mut r = Replacements::new();
        r.add(string_of(&vec!['m', 'r']), string_of(&vec!['m', 'i', 's', 't', 'e', 'r']));
        r.add(string_of(&vec!['m', 'r', 's']), string_of(&vec!['m', 'i', 's', 's']));
        r.add(string_of(&vec!['p', 'h', 'd']), string_of(&vec!['d', 'o', 'c', 't', 'o', 'r']));
        r.add(
            string_of(&vec!['b', 's', 'c']),
            string_of(&vec!['b', 'a', 'c', 'h', 'e', 'l', 'o', 'r']),
        );
        assert(r@ =~= default_entries());
        r
    }

    /// Looks `key` up in the table.
    fn check(&self, key: &Vec<char>) -> (r: Option<String>)
        ensures
            r is Some == lookup(self@, key@) is Some,
            r is Some ==> r->Some_0@ == lookup(self@, key@)->Some_0,
    {
        let mut i: usize = self.entries.len();
        assert(self@.take(i as int) =~= self@);
        while i > 0
            invariant
                i <= self@.len(),
                lookup(self@, key@) == lookup(self@.take(i as int), key@),
            decreases i,
        {
            let entry = &self.entries[i - 1];
            let entry_key = chars_of(entry.0.as_str());
            assert(self@.take(i as int).drop_last() =~= self@.take(i - 1));
            if same_chars(&entry_key, key) {
                return Some(entry.1.clone());
            }
            i = i - 1;
        }
        None
    }
}

/// Rewrites one token: a word or possessive form whose key is in `table`
/// becomes `Replaced`; every other token is handed back as it is.
pub fn replace_token(table: &Replacements, token: Token) -> (r: Token)
    ensures
        r@ == rewrite_token(table@, token@),
{
    match token {
        Token::Word(raw) => {
            let key = chars_of(raw.as_str());
            match table.check(&key) {
                Some(fixed) => Token::Replaced { raw, fixed },
                None => Token::Word(raw),
            }
        },
        Token::WordPosessive { raw, fixed } => {
            let key = chars_of(fixed.as_str());
            match table.check(&key) {
                Some(e) => Token::Replaced { raw, fixed: e },
                None => Token::WordPosessive { raw, fixed },
            }
        },
        other => other,
    }
}

/// Relies on rayon's `into_par_iter().map(f).collect()` on a `Vec`: each
/// item is handed to `f` once, and the results come back in the items' order.
#[verifier::external_body]
fn map_in_parallel(table: &Replacements, tokens: Vec<Token>) -> (r: Vec<Token>)
    ensures
        r@.len() == tokens@.len(),
        forall|i: int|
            0 <= i < r@.len() ==> #[trigger] r@[i]@ == rewrite_token(table@, tokens@[i]@),
{
    tokens.into_par_iter().map(|t| replace_token(table, t)).collect()
}

/// Expands the abbreviations of `table` among `tokens`, keeping their order.
pub fn replace_with(table: &Replacements, tokens: Vec<Token>) -> (r: Vec<Token>)
    ensures
        models(r@) == rewrite(table@, models(tokens@)),
{
    let ghost before = tokens@;
    let r = map_in_parallel(table, tokens);
    assert(models(r@) =~= rewrite(table@, models(before)));
    r
}

/// Expands the abbreviations of the default table among `tokens`, keeping
/// their order.
pub fn replace(tokens: Vec<Token>) -> (r: Vec<Token>)
    ensures
        models(r@) == rewrite(default_entries(), models(tokens@)),
{
    let table = Replacements::defaults();
    replace_with(&table, tokens)
}

} // verus!
