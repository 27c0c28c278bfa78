//! The library's laws: properties of the reply pipeline that hold for every
//! input, stated over the same spec functions as the functions' contracts and
//! proved here.

use crate::lex::{
    is_space, lemma_lower_seq_idem, lemma_words_extra_space, lemma_words_leading_space,
    lemma_words_lower, lemma_words_trailing_space, lower_seq, lower_words, words,
};
use crate::metrics::{
    assemble, entry_km_per_l, entry_l_per_100km, entry_rub_per_km, has_cost, has_pair, sep,
};
use crate::num::parse_num;
use crate::reply::{
    args_of, ends_with, extract, km_suffix, l_suffix, reply_of, rub_suffix, step_token,
};
use vstd::prelude::*;

verus! {

/// Whenever a distance and a volume were extracted and both are nonzero, the
/// reply exists and begins with exactly the two fuel entries in fixed order:
/// `100 * volume / distance` to three decimals with ` l/100km`, then
/// `distance / volume` to three decimals with ` km/l`, joined by `", "`.
pub proof fn lemma_fuel_pair_entries(s: Seq<char>, a: (nat, nat), b: (nat, nat))
    requires
        extract(args_of(s)).0 == Some(a),
        extract(args_of(s)).1 == Some(b),
        a.0 != 0,
        b.0 != 0,
    ensures
        reply_of(s) is Some,
        reply_of(s).unwrap().take(
            (entry_l_per_100km(a, b) + sep() + entry_km_per_l(a, b)).len() as int,
        ) == entry_l_per_100km(a, b) + sep() + entry_km_per_l(a, b),
        extract(args_of(s)).2 is None ==> reply_of(s).unwrap() == entry_l_per_100km(a, b) + sep()
            + entry_km_per_l(a, b),
{
    let st = extract(args_of(s));
    let pair = entry_l_per_100km(a, b) + sep() + entry_km_per_l(a, b);
    assert(has_pair(st.0, st.1));
    if has_cost(st.0, st.2) {
        assert(reply_of(s).unwrap() == pair + sep() + entry_rub_per_km(a, st.2.unwrap()));
        assert(reply_of(s).unwrap().take(pair.len() as int) =~= pair);
    } else {
        assert(reply_of(s).unwrap() == pair);
        assert(reply_of(s).unwrap().take(pair.len() as int) =~= pair);
    }
}

/// Whenever a distance and a cost were extracted and the distance is nonzero,
/// the reply exists and ends with exactly the cost entry: `cost / distance`
/// to two decimals with ` rub/km`.
pub proof fn lemma_cost_entry(s: Seq<char>, a: (nat, nat), c: (nat, nat))
    requires
        extract(args_of(s)).0 == Some(a),
        extract(args_of(s)).2 == Some(c),
        a.0 != 0,
    ensures
        reply_of(s) is Some,
        reply_of(s).unwrap().skip(
            reply_of(s).unwrap().len() - entry_rub_per_km(a, c).len(),
        ) == entry_rub_per_km(a, c),
        extract(args_of(s)).1 is None ==> reply_of(s).unwrap() == entry_rub_per_km(a, c),
{
    let st = extract(args_of(s));
    let e3 = entry_rub_per_km(a, c);
    assert(has_cost(st.0, st.2));
    if has_pair(st.0, st.1) {
        let head = entry_l_per_100km(a, st.1.unwrap()) + sep() + entry_km_per_l(a, st.1.unwrap())
            + sep();
        assert(reply_of(s).unwrap() == head + e3);
        assert((head + e3).skip((head + e3).len() - e3.len()) =~= e3);
    } else {
        assert(reply_of(s).unwrap() == e3);
        assert(e3.skip(0) =~= e3);
    }
}

/// Extraction, and with it the whole reply, does not depend on letter case:
/// lowercasing the entire text first changes nothing.
pub proof fn lemma_extract_lower(ws: Seq<Seq<char>>)
    ensures
        extract(lower_words(ws)) == extract(ws),
    decreases ws.len(),
{
    if ws.len() == 0 {
        assert(lower_words(ws).len() == 0);
    } else {
        assert(lower_words(ws).drop_last() =~= lower_words(ws.drop_last()));
        assert(lower_words(ws).last() == lower_seq(ws.last()));
        lemma_extract_lower(ws.drop_last());
        lemma_lower_seq_idem(ws.last());
        assert(extract(lower_words(ws)) == step_token(extract(ws.drop_last()), lower_seq(
            ws.last(),
        )));
        assert(step_token(extract(ws.drop_last()), lower_seq(ws.last())) == step_token(
            extract(ws.drop_last()),
            ws.last(),
        ));
    }
}

/// Unit suffixes are case-insensitive: the reply to the lowercased text is
/// the reply to the text.
pub proof fn lemma_reply_case_insensitive(s: Seq<char>)
    ensures
        reply_of(lower_seq(s)) == reply_of(s),
{
    lemma_words_lower(s);
    if words(s).len() == 0 {
        assert(args_of(lower_seq(s)) =~= args_of(s));
    } else {
        assert(args_of(lower_seq(s)) == lower_words(words(s)).skip(1));
        assert(lower_words(words(s)).skip(1) =~= lower_words(words(s).skip(1)));
        lemma_extract_lower(words(s).skip(1));
    }
}

/// The reply is a function of the words alone: two texts with the same words
/// get the same reply.
pub proof fn lemma_reply_same_words(s1: Seq<char>, s2: Seq<char>)
    requires
        words(s1) == words(s2),
    ensures
        reply_of(s1) == reply_of(s2),
{
}

/// Leading whitespace does not change the reply.
pub proof fn lemma_reply_leading_space(s: Seq<char>, c: char)
    requires
        is_space(c),
    ensures
        reply_of(seq![c] + s) == reply_of(s),
{
    lemma_words_leading_space(s, c);
    lemma_reply_same_words(seq![c] + s, s);
}

/// Trailing whitespace does not change the reply.
pub proof fn lemma_reply_trailing_space(s: Seq<char>, c: char)
    requires
        is_space(c),
    ensures
        reply_of(s + seq![c]) == reply_of(s),
{
    lemma_words_trailing_space(s, c);
    lemma_reply_same_words(s + seq![c], s);
}

/// Widening any whitespace run does not change the reply: a whitespace
/// character inserted beside an existing one is ignored.
pub proof fn lemma_reply_extra_space(s: Seq<char>, i: int, c: char)
    requires
        0 <= i < s.len(),
        is_space(s[i]),
        is_space(c),
    ensures
        reply_of(s.take(i) + seq![c] + s.skip(i)) == reply_of(s),
{
    lemma_words_extra_space(s, i, c);
    lemma_reply_same_words(s.take(i) + seq![c] + s.skip(i), s);
}

/// The last word of a kind wins: a trailing word with a recognized suffix and
/// a well-formed numeral sets its field, whatever came before.
pub proof fn lemma_last_token_wins(ws: Seq<Seq<char>>, w: Seq<char>, v: (nat, nat))
    ensures
        ends_with(lower_seq(w), km_suffix()) && parse_num(
            lower_seq(w).take(lower_seq(w).len() - 2),
        ) == Some(v) ==> extract(ws.push(w)).0 == Some(v),
        !ends_with(lower_seq(w), km_suffix()) && ends_with(lower_seq(w), l_suffix()) && parse_num(
            lower_seq(w).take(lower_seq(w).len() - 1),
        ) == Some(v) ==> extract(ws.push(w)).1 == Some(v),
        !ends_with(lower_seq(w), km_suffix()) && !ends_with(lower_seq(w), l_suffix()) && ends_with(
            lower_seq(w),
            rub_suffix(),
        ) && parse_num(lower_seq(w).take(lower_seq(w).len() - 3)) == Some(v) ==> extract(
            ws.push(w),
        ).2 == Some(v),
{
    assert(ws.push(w).drop_last() =~= ws);
    assert(ws.push(w).last() == w);
}

/// A word that carries a recognized suffix but no well-formed numeral, or no
/// recognized suffix at all, contributes nothing: the extraction is as if the
/// word were absent.
pub proof fn lemma_malformed_token_skipped(ws: Seq<Seq<char>>, w: Seq<char>)
    requires
        ends_with(lower_seq(w), km_suffix()) ==> parse_num(
            lower_seq(w).take(lower_seq(w).len() - 2),
        ) is None,
        ends_with(lower_seq(w), l_suffix()) ==> parse_num(
            lower_seq(w).take(lower_seq(w).len() - 1),
        ) is None,
        ends_with(lower_seq(w), rub_suffix()) ==> parse_num(
            lower_seq(w).take(lower_seq(w).len() - 3),
        ) is None,
    ensures
        extract(ws.push(w)) == extract(ws),
{
    assert(ws.push(w).drop_last() =~= ws);
    assert(ws.push(w).last() == w);
}

/// Without the required inputs there is no reply at all: no distance means no
/// reply, and no volume together with no cost means no reply.
pub proof fn lemma_missing_inputs_no_reply(s: Seq<char>)
    ensures
        extract(args_of(s)).0 is None ==> reply_of(s) is None,
        extract(args_of(s)).1 is None && extract(args_of(s)).2 is None ==> reply_of(s) is None,
{
}

/// A reply, when there is one, is never the empty string: absence is
/// signalled by `None` alone.
pub proof fn lemma_reply_nonempty(s: Seq<char>)
    ensures
        reply_of(s) matches Some(r) ==> r.len() > 0,
{
}

/// A zero denominator silently omits the affected metrics instead of
/// producing an infinite value: a zero distance omits everything, and a zero
/// volume omits the fuel pair exactly as an absent volume would.
pub proof fn lemma_zero_denominator_omitted(
    km: Option<(nat, nat)>,
    l: Option<(nat, nat)>,
    rub: Option<(nat, nat)>,
)
    ensures
        (km matches Some(a) && a.0 == 0) ==> assemble(km, l, rub) is None,
        (l matches Some(b) && b.0 == 0) ==> assemble(km, l, rub) == assemble(km, None, rub),
{
}

} // verus!
