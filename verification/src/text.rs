//! Splitting text on whitespace, and joining tokens back.
//!
//! Hand notation is a string of card tokens separated by runs of
//! whitespace. `split_ws` says which tokens a string holds; `join_tokens`
//! renders tokens with single spaces, and splitting what was joined
//! yields the tokens back.

use vstd::prelude::*;

verus! {

/// A whitespace character of the notation: the ASCII whitespace set.
pub open spec fn is_ws_char(c: char) -> bool {
    c == ' ' || c == '\t' || c == '\n' || c == '\r' || c == '\u{b}' || c == '\u{c}'
}

/// Tests a character for whitespace.
pub fn is_ws(c: char) -> (r: bool)
    ensures
        r == is_ws_char(c),
{
    c == ' ' || c == '\t' || c == '\n' || c == '\r' || c == '\u{b}' || c == '\u{c}'
}

/// The length of the leading token of `s`: how many characters stand
/// before the first whitespace (zero when `s` opens with whitespace).
pub open spec fn token_len(s: Seq<char>) -> nat
    decreases s.len(),
{
    if s.len() == 0 || is_ws_char(s[0]) {
        0
    } else {
        (1 + token_len(s.drop_first())) as nat
    }
}

/// A token never outruns its text.
pub proof fn lemma_token_len_le(s: Seq<char>)
    ensures
        token_len(s) <= s.len(),
    decreases s.len(),
{
    if s.len() != 0 && !is_ws_char(s[0]) {
        lemma_token_len_le(s.drop_first());
    }
}

/// The maximal whitespace-free runs of `s`, in order: leading whitespace
/// is skipped, else the leading token is taken and the rest split.
pub open spec fn split_ws(s: Seq<char>) -> Seq<Seq<char>>
    decreases s.len(),
    via split_ws_decreases
{
    if s.len() == 0 {
        Seq::empty()
    } else if is_ws_char(s[0]) {
        split_ws(s.drop_first())
    } else {
        seq![s.take(token_len(s) as int)] + split_ws(s.skip(token_len(s) as int))
    }
}

#[via_fn]
proof fn split_ws_decreases(s: Seq<char>) {
    if s.len() != 0 && !is_ws_char(s[0]) {
        lemma_token_len_le(s);
    }
}

/// The leading token runs exactly up to the first whitespace: when the
/// first `m` characters are whitespace-free and the text then ends or
/// meets whitespace, the leading token has length `m`.
pub proof fn lemma_token_len_exact(s: Seq<char>, m: int)
    requires
        0 <= m <= s.len(),
        forall|k: int| 0 <= k < m ==> !is_ws_char(#[trigger] s[k]),
        m == s.len() || is_ws_char(s[m]),
    ensures
        token_len(s) == m,
    decreases m,
{
    if m == 0 {
    } else {
        lemma_token_len_exact(s.drop_first(), m - 1);
    }
}

/// Splitting text that opens with a whitespace-free run of length `m`
/// (ended by whitespace or the text's end) yields that run and then the
/// split of the rest.
pub proof fn lemma_split_ws_token(s: Seq<char>, m: int)
    requires
        1 <= m <= s.len(),
        forall|k: int| 0 <= k < m ==> !is_ws_char(#[trigger] s[k]),
        m == s.len() || is_ws_char(s[m]),
    ensures
        split_ws(s) =~= seq![s.take(m)] + split_ws(s.skip(m)),
{
    lemma_token_len_exact(s, m);
}

/// A token as the notation writes one: non-empty and whitespace-free.
pub open spec fn clean_token(t: Seq<char>) -> bool {
    t.len() > 0 && (forall|k: int| 0 <= k < t.len() ==> !is_ws_char(#[trigger] t[k]))
}

/// The tokens rendered in order, single spaces between them.
pub open spec fn join_tokens(ts: Seq<Seq<char>>) -> Seq<char>
    decreases ts.len(),
{
    if ts.len() == 0 {
        Seq::empty()
    } else if ts.len() == 1 {
        ts[0]
    } else {
        ts[0] + seq![' '] + join_tokens(ts.drop_first())
    }
}

/// Splitting joined clean tokens yields the tokens back.
pub proof fn lemma_split_join(ts: Seq<Seq<char>>)
    requires
        forall|i: int| 0 <= i < ts.len() ==> clean_token(#[trigger] ts[i]),
    ensures
        split_ws(join_tokens(ts)) =~= ts,
    decreases ts.len(),
{
    if ts.len() == 0 {
    } else if ts.len() == 1 {
        let t = ts[0];
        lemma_split_ws_token(t, t.len() as int);
        assert(t.take(t.len() as int) =~= t);
        assert(t.skip(t.len() as int) =~= Seq::<char>::empty());
        assert(split_ws(join_tokens(ts)) =~= seq![t] + split_ws(Seq::<char>::empty()));
        assert(seq![t] + Seq::<Seq<char>>::empty() =~= ts);
    } else {
        let t = ts[0];
        let s = join_tokens(ts);
        let rest = join_tokens(ts.drop_first());
        assert(s =~= t + seq![' '] + rest);
        assert(forall|k: int| 0 <= k < t.len() ==> !is_ws_char(#[trigger] s[k])) by {
            assert(forall|k: int| 0 <= k < t.len() ==> s[k] == t[k]);
        };
        assert(is_ws_char(s[t.len() as int]));
        lemma_split_ws_token(s, t.len() as int);
        assert(s.take(t.len() as int) =~= t);
        assert(s.skip(t.len() as int) =~= seq![' '] + rest);
        assert((seq![' '] + rest).drop_first() =~= rest);
        assert(split_ws(seq![' '] + rest) =~= split_ws(rest));
        lemma_split_join(ts.drop_first());
        assert(split_ws(s) =~= seq![t] + ts.drop_first());
        assert(seq![t] + ts.drop_first() =~= ts);
    }
}

} // verus!
