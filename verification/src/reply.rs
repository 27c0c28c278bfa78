//! The command surface: `refuel_reply` turns one `/refuel` message into its
//! reply, and `dispatch_reply` selects between the refuel command, the help
//! command, and silence.
//!
//! A message is split into whitespace-separated words; the first word (the
//! command itself) is dropped; each further word is lowercased and classified
//! by its unit suffix, checked in the order `km`, `l`, `rub`, first match
//! only. The suffix is stripped and the rest parsed as a decimal numeral; a
//! word outside the grammar contributes nothing, and a later word of the same
//! kind overwrites an earlier one.

use crate::lex::{
    is_space, is_space_exec, lemma_words_at_word, lemma_words_skip_space, lower_char,
    lower_char_exec, lower_seq, words,
};
use crate::metrics::{assemble, meas, render_reply};
use crate::num::{parse_num, parse_prefix, pow10};
use vstd::prelude::*;
use vstd::string::{StrSliceExecFns, StringExecFns};

verus! {

pub open spec fn km_suffix() -> Seq<char> {
    seq!['k', 'm']
}

pub open spec fn l_suffix() -> Seq<char> {
    seq!['l']
}

pub open spec fn rub_suffix() -> Seq<char> {
    seq!['r', 'u', 'b']
}

pub open spec fn ends_with(t: Seq<char>, sfx: Seq<char>) -> bool {
    t.len() >= sfx.len() && t.skip(t.len() - sfx.len()) == sfx
}

pub open spec fn starts_with(s: Seq<char>, p: Seq<char>) -> bool {
    s.len() >= p.len() && s.take(p.len() as int) == p
}

/// One already-lowercased word applied to the three optional measurements:
/// the word is classified by its suffix (`km` before `l` before `rub`, first
/// match only) and, where the stripped numeral parses, overwrites that field.
pub open spec fn step_lowered(
    st: (Option<(nat, nat)>, Option<(nat, nat)>, Option<(nat, nat)>),
    lt: Seq<char>,
) -> (Option<(nat, nat)>, Option<(nat, nat)>, Option<(nat, nat)>) {
    if ends_with(lt, km_suffix()) {
        match parse_num(lt.take(lt.len() - 2)) {
            Some(v) => (Some(v), st.1, st.2),
            None => st,
        }
    } else if ends_with(lt, l_suffix()) {
        match parse_num(lt.take(lt.len() - 1)) {
            Some(v) => (st.0, Some(v), st.2),
            None => st,
        }
    } else if ends_with(lt, rub_suffix()) {
        match parse_num(lt.take(lt.len() - 3)) {
            Some(v) => (st.0, st.1, Some(v)),
            None => st,
        }
    } else {
        st
    }
}

/// One raw word applied to the state: lowercased, then `step_lowered`.
pub open spec fn step_token(
    st: (Option<(nat, nat)>, Option<(nat, nat)>, Option<(nat, nat)>),
    w: Seq<char>,
) -> (Option<(nat, nat)>, Option<(nat, nat)>, Option<(nat, nat)>) {
    step_lowered(st, lower_seq(w))
}

/// The measurements extracted from the argument words, in scan order, the
/// last word of each kind winning.
pub open spec fn extract(ws: Seq<Seq<char>>) -> (
    Option<(nat, nat)>,
    Option<(nat, nat)>,
    Option<(nat, nat)>,
)
    decreases ws.len(),
{
    if ws.len() == 0 {
        (None, None, None)
    } else {
        step_token(extract(ws.drop_last()), ws.last())
    }
}

/// The argument words of a command text: all words but the leading command
/// word.
pub open spec fn args_of(s: Seq<char>) -> Seq<Seq<char>> {
    if words(s).len() == 0 {
        Seq::empty()
    } else {
        words(s).skip(1)
    }
}

/// The reply to a `/refuel` text: the assembled metrics of its measurements,
/// or nothing when no metric is computable.
pub open spec fn reply_of(s: Seq<char>) -> Option<Seq<char>> {
    let st = extract(args_of(s));
    assemble(st.0, st.1, st.2)
}

/// An extracted measurement is within the numeral limits.
pub open spec fn valid_meas(o: Option<(u64, u32)>) -> bool {
    match o {
        Some(v) => (v.0 as nat) < pow10(19) && v.1 <= 12,
        None => true,
    }
}

/// The mathematical view of the three extracted measurements.
pub open spec fn meas3(
    t: (Option<(u64, u32)>, Option<(u64, u32)>, Option<(u64, u32)>),
) -> (Option<(nat, nat)>, Option<(nat, nat)>, Option<(nat, nat)>) {
    (meas(t.0), meas(t.1), meas(t.2))
}

/// The characters of a text, in order.
fn chars_of(text: &str) -> (r: Vec<char>)
    ensures
        r@ == text@,
{
    let n = text.unicode_len();
    let mut cs: Vec<char> = Vec::new();
    let mut i: usize = 0;
    while i < n
        invariant
            i <= n,
            n == text@.len(),
            cs@ == text@.take(i as int),
        decreases n - i,
    {
        let c = text.get_char(i);
        cs.push(c);
        proof {
            assert(text@.take(i + 1 as int) =~= text@.take(i as int).push(text@[i as int]));
        }
        i = i + 1;
    }
    proof {
        assert(text@.take(n as int) =~= text@);
    }
    cs
}

/// Apply one lowercased word to the extracted state, exactly `step_lowered`.
fn word_step(
    st: (Option<(u64, u32)>, Option<(u64, u32)>, Option<(u64, u32)>),
    lt: &Vec<char>,
) -> (r: (Option<(u64, u32)>, Option<(u64, u32)>, Option<(u64, u32)>))
    ensures
        meas3(r) == step_lowered(meas3(st), lt@),
        valid_meas(st.0) && valid_meas(st.1) && valid_meas(st.2) ==> valid_meas(r.0) && valid_meas(
            r.1,
        ) && valid_meas(r.2),
{
    let len = lt.len();
    if len >= 2 && lt[len - 2] == 'k' && lt[len - 1] == 'm' {
        proof {
            assert(lt@.skip(lt@.len() - 2) =~= km_suffix());
        }
        match parse_prefix(lt, len - 2) {
            Some(v) => (Some(v), st.1, st.2),
            None => st,
        }
    } else if len >= 1 && lt[len - 1] == 'l' {
        proof {
            assert(!ends_with(lt@, km_suffix())) by {
                if ends_with(lt@, km_suffix()) {
                    assert(lt@.skip(lt@.len() - 2)[0] == lt@[lt@.len() - 2]);
                    assert(lt@.skip(lt@.len() - 2)[1] == lt@[lt@.len() - 1]);
                }
            }
            assert(lt@.skip(lt@.len() - 1) =~= l_suffix());
        }
        match parse_prefix(lt, len - 1) {
            Some(v) => (st.0, Some(v), st.2),
            None => st,
        }
    } else if len >= 3 && lt[len - 3] == 'r' && lt[len - 2] == 'u' && lt[len - 1] == 'b' {
        proof {
            assert(!ends_with(lt@, km_suffix())) by {
                if ends_with(lt@, km_suffix()) {
                    assert(lt@.skip(lt@.len() - 2)[0] == lt@[lt@.len() - 2]);
                    assert(lt@.skip(lt@.len() - 2)[1] == lt@[lt@.len() - 1]);
                }
            }
            assert(!ends_with(lt@, l_suffix())) by {
                if ends_with(lt@, l_suffix()) {
                    assert(lt@.skip(lt@.len() - 1)[0] == lt@[lt@.len() - 1]);
                }
            }
            assert(lt@.skip(lt@.len() - 3) =~= rub_suffix());
        }
        match parse_prefix(lt, len - 3) {
            Some(v) => (st.0, st.1, Some(v)),
            None => st,
        }
    } else {
        proof {
            assert(!ends_with(lt@, km_suffix())) by {
                if ends_with(lt@, km_suffix()) {
                    assert(lt@.skip(lt@.len() - 2)[0] == lt@[lt@.len() - 2]);
                    assert(lt@.skip(lt@.len() - 2)[1] == lt@[lt@.len() - 1]);
                }
            }
            assert(!ends_with(lt@, l_suffix())) by {
                if ends_with(lt@, l_suffix()) {
                    assert(lt@.skip(lt@.len() - 1)[0] == lt@[lt@.len() - 1]);
                }
            }
            assert(!ends_with(lt@, rub_suffix())) by {
                if ends_with(lt@, rub_suffix()) {
                    assert(lt@.skip(lt@.len() - 3)[0] == lt@[lt@.len() - 3]);
                    assert(lt@.skip(lt@.len() - 3)[1] == lt@[lt@.len() - 2]);
                    assert(lt@.skip(lt@.len() - 3)[2] == lt@[lt@.len() - 1]);
                }
            }
        }
        st
    }
}

/// The reply to one `/refuel` message text, or `None` where no metric is
/// computable: exactly `reply_of` of the text.
pub fn refuel_reply(text: &str) -> (r: Option<String>)
    ensures
        match (r, reply_of(text@)) {
            (Some(a), Some(b)) => a@ == b,
            (None, None) => true,
            _ => false,
        },
{
    let cs = chars_of(text);
    let n = cs.len();
    let ghost full = text@;
    let ghost toks = words(full);
    let mut st: (Option<(u64, u32)>, Option<(u64, u32)>, Option<(u64, u32)>) = (None, None, None);
    let mut i: usize = 0;
    let mut k: usize = 0;
    proof {
        assert(toks.skip(0) =~= toks);
        assert(full.skip(0) =~= full);
        crate::lex::lemma_words_count(full);
    }
    while i < n
        invariant
            i <= n,
            k <= toks.len(),
            toks.skip(k as int) == words(full.skip(i as int)),
            k == 0 ==> st.0 is None && st.1 is None && st.2 is None,
            k >= 1 ==> meas3(st) == extract(toks.subrange(1, k as int)),
            valid_meas(st.0) && valid_meas(st.1) && valid_meas(st.2),
        decreases n - i,
    {
        if is_space_exec(cs[i]) {
            proof {
                lemma_words_skip_space(full, i as int);
            }
            i = i + 1;
        } else {
            let mut j = i + 1;
            while j < n && !is_space_exec(cs[j])
                invariant
                    i < j <= n,
                    forall|m: int| i <= m < j ==> !is_space(full[m]),
                decreases n - j,
            {
                j = j + 1;
            }
            proof {
                lemma_words_at_word(full, i as int, j as int);
                assert(toks.skip(k as int).len() >= 1);
                assert(k < toks.len());
                assert(toks.skip(k as int)[0] == toks[k as int]);
                assert(toks[k as int] == full.subrange(i as int, j as int));
                assert(toks.skip(k as int).skip(1) =~= toks.skip(k + 1 as int));
                assert((seq![full.subrange(i as int, j as int)] + words(full.skip(j as int))).skip(
                    1,
                ) =~= words(full.skip(j as int)));
            }
            if k == 0 {
                proof {
                    assert(toks.subrange(1, 1) =~= Seq::<Seq<char>>::empty());
                }
            } else {
                let mut lt: Vec<char> = Vec::new();
                let mut m = i;
                while m < j
                    invariant
                        i <= m <= j,
                        lt@ == lower_seq(full.subrange(i as int, m as int)),
                    decreases j - m,
                {
                    lt.push(lower_char_exec(cs[m]));
                    proof {
                        assert(lower_seq(full.subrange(i as int, m + 1 as int)) =~= lower_seq(
                            full.subrange(i as int, m as int),
                        ).push(lower_char(full[m as int])));
                    }
                    m = m + 1;
                }
                let ghost old_st = st;
                st = word_step(st, &lt);
                proof {
                    let sub1 = toks.subrange(1, k + 1 as int);
                    assert(sub1.drop_last() =~= toks.subrange(1, k as int));
                    assert(sub1.last() == toks[k as int]);
                    assert(meas3(st) == step_token(meas3(old_st), toks[k as int]));
                    assert(meas3(st) == extract(sub1));
                }
            }
            i = j;
            k = k + 1;
        }
    }
    proof {
        assert(full.skip(n as int) =~= Seq::<char>::empty());
        assert(words(full.skip(n as int)) =~= Seq::<Seq<char>>::empty());
        assert(toks.skip(k as int).len() == 0);
        assert(k == toks.len());
        if toks.len() == 0 {
            assert(args_of(full) =~= Seq::<Seq<char>>::empty());
        } else {
            assert(toks.subrange(1, k as int) =~= args_of(full));
        }
    }
    render_reply(st.0, st.1, st.2)
}

pub open spec fn refuel_prefix() -> Seq<char> {
    seq!['/', 'r', 'e', 'f', 'u', 'e', 'l']
}

pub open spec fn help_prefix() -> Seq<char> {
    seq!['/', 'h', 'e', 'l', 'p']
}

/// The fixed instructional reply to the help command.
pub open spec fn help_text() -> Seq<char> {
    "Type /refuel ???km ???l ???rub to compute consumption.\n For example: /refuel 500km 30l 2000rub"@
}

/// What one inbound text is answered with: the refuel reply for a text that
/// begins with `/refuel`, the fixed help text for one that begins with
/// `/help`, and nothing otherwise.
pub open spec fn dispatch_of(s: Seq<char>) -> Option<Seq<char>> {
    if starts_with(s, refuel_prefix()) {
        reply_of(s)
    } else if starts_with(s, help_prefix()) {
        Some(help_text())
    } else {
        None
    }
}

/// Answer one inbound message text, exactly `dispatch_of`.
pub fn dispatch_reply(text: &str) -> (r: Option<String>)
    ensures
        match (r, dispatch_of(text@)) {
            (Some(a), Some(b)) => a@ == b,
            (None, None) => true,
            _ => false,
        },
{
    let n = text.unicode_len();
    let is_refuel = n >= 7 && text.get_char(0) == '/' && text.get_char(1) == 'r' && text.get_char(
        2,
    ) == 'e' && text.get_char(3) == 'f' && text.get_char(4) == 'u' && text.get_char(5) == 'e'
        && text.get_char(6) == 'l';
    if is_refuel {
        proof {
            assert(text@.take(7) =~= refuel_prefix());
        }
        refuel_reply(text)
    } else {
        proof {
            assert(!starts_with(text@, refuel_prefix()));
        }
        let is_help = n >= 5 && text.get_char(0) == '/' && text.get_char(1) == 'h' && text.get_char(
            2,
        ) == 'e' && text.get_char(3) == 'l' && text.get_char(4) == 'p';
        if is_help {
            proof {
                assert(text@.take(5) =~= help_prefix());
            }
            let s = String::from_str(
                "Type /refuel ???km ???l ???rub to compute consumption.\n For example: /refuel 500km 30l 2000rub",
            );
            Some(s)
        } else {
            proof {
                assert(!starts_with(text@, help_prefix()));
            }
            None
        }
    }
}

} // verus!
