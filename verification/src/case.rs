//! Case utilities: word capitalization and ASCII slug generation.
//!
//! Used by the block parser for heading anchors and by the templating
//! collaborator for title capitalization.

use vstd::prelude::*;
use crate::text::{
    chars_of, copy_range, is_space, is_space_char, join_with, lemma_join_push, lower_chars,
    lower_of, push_all, string_from_chars, upper_chars, upper_of, views_of,
};

verus! {

/// The capitalization of one word: first character uppercased, the rest
/// lowercased; an empty word stays empty.
pub open spec fn upper_once_spec(w: Seq<char>) -> Seq<char> {
    if w.len() == 0 {
        Seq::empty()
    } else {
        upper_of(seq![w[0]]) + lower_of(w.skip(1))
    }
}

/// Accumulator for splitting a sequence into whitespace-separated words.
pub struct WordsState {
    pub cur: Seq<char>,
    pub words: Seq<Seq<char>>,
}

pub open spec fn words_step(st: WordsState, c: char) -> WordsState {
    if is_space(c) {
        WordsState {
            cur: Seq::empty(),
            words: if st.cur.len() > 0 {
                st.words.push(st.cur)
            } else {
                st.words
            },
        }
    } else {
        WordsState { cur: st.cur.push(c), words: st.words }
    }
}

pub open spec fn words_run(s: Seq<char>) -> WordsState {
    s.fold_left(
        WordsState { cur: Seq::empty(), words: Seq::empty() },
        |st: WordsState, c: char| words_step(st, c),
    )
}

/// The whitespace-separated words of `s`, in order, empty runs dropped.
pub open spec fn words_of(s: Seq<char>) -> Seq<Seq<char>> {
    let st = words_run(s);
    if st.cur.len() > 0 {
        st.words.push(st.cur)
    } else {
        st.words
    }
}

/// Uppercase the first letter of each whitespace-separated word, lowercase
/// the rest of the word, and rejoin the words with single spaces.
pub fn upper_first(s: &str) -> (r: String)
    ensures
        r@ == join_with(seq![' '], words_of(s@).map_values(|w: Seq<char>| upper_once_spec(w))),
{
    let cs = chars_of(s);
    let mut words: Vec<Vec<char>> = Vec::new();
    let mut cur: Vec<char> = Vec::new();
    let mut i: usize = 0;
    while i < cs.len()
        invariant
            i <= cs@.len(),
            cs@ == s@,
            cur@ == words_run(s@.take(i as int)).cur,
            views_of(words@) == words_run(s@.take(i as int)).words,
        decreases cs@.len() - i,
    {
        let c = cs[i];
        proof {
            assert(s@.take(i + 1 as int).drop_last() =~= s@.take(i as int));
            assert(s@.take(i + 1 as int).last() == s@[i as int]);
        }
        let ghost prev = words_run(s@.take(i as int));
        if is_space_char(c) {
            if cur.len() > 0 {
                let ghost old_dv = views_of(words@);
                words.push(cur);
                proof {
                    assert(views_of(words@) =~= old_dv.push(prev.cur));
                }
            }
            cur = Vec::new();
        } else {
            cur.push(c);
        }
        i = i + 1;
    }
    proof {
        assert(s@.take(cs@.len() as int) =~= s@);
    }
    let ghost word_seq = words_of(s@);
    if cur.len() > 0 {
        let ghost old_dv = views_of(words@);
        words.push(cur);
        proof {
            assert(views_of(words@) =~= old_dv.push(words_run(s@).cur));
        }
    }
    proof {
        assert(views_of(words@) == word_seq);
    }
    let ghost rendered = word_seq.map_values(|w: Seq<char>| upper_once_spec(w));
    let mut out: Vec<char> = Vec::new();
    let mut j: usize = 0;
    while j < words.len()
        invariant
            j <= words@.len(),
            views_of(words@) == word_seq,
            rendered == word_seq.map_values(|w: Seq<char>| upper_once_spec(w)),
            out@ == join_with(seq![' '], rendered.take(j as int)),
        decreases words@.len() - j,
    {
        if j > 0 {
            out.push(' ');
        }
        let w = upper_once_chars(&words[j]);
        push_all(&mut out, &w);
        proof {
            assert(rendered.take(j + 1 as int) =~= rendered.take(j as int).push(rendered[j as int]));
            lemma_join_push(seq![' '], rendered.take(j as int), rendered[j as int]);
            assert(views_of(words@)[j as int] == words@[j as int]@);
            assert(rendered[j as int] == upper_once_spec(words@[j as int]@));
        }
        j = j + 1;
    }
    proof {
        assert(rendered.take(rendered.len() as int) =~= rendered);
        assert(words@.len() == rendered.len());
    }
    string_from_chars(&out)
}

/// The capitalization of one word over its characters.
pub(crate) fn upper_once_chars(v: &Vec<char>) -> (r: Vec<char>)
    ensures
        r@ == upper_once_spec(v@),
{
    if v.len() == 0 {
        let r: Vec<char> = Vec::new();
        proof {
            assert(r@ =~= Seq::<char>::empty());
        }
        r
    } else {
        let mut first: Vec<char> = Vec::new();
        first.push(v[0]);
        proof {
            assert(first@ =~= seq![v@[0]]);
        }
        let rest = copy_range(v, 1, v.len());
        proof {
            assert(rest@ =~= v@.skip(1));
        }
        let mut out = upper_chars(&first);
        let lo = lower_chars(&rest);
        push_all(&mut out, &lo);
        out
    }
}

/// Uppercase the first letter of the string, lowercase the rest.
pub fn upper_first_once(s: &str) -> (r: String)
    ensures
        r@ == upper_once_spec(s@),
{
    let cs = chars_of(s);
    let out = upper_once_chars(&cs);
    string_from_chars(&out)
}

/// What one character contributes to a slug: a space becomes a hyphen, a
/// lowercase ASCII letter, digit or hyphen passes through, anything else is
/// dropped.
pub open spec fn kebab_char(c: char) -> Seq<char> {
    if c == ' ' {
        seq!['-']
    } else if ('a' <= c && c <= 'z') || ('0' <= c && c <= '9') || c == '-' {
        seq![c]
    } else {
        Seq::empty()
    }
}

/// The slug characters of `s` (already lowercased), in order.
pub open spec fn kebab_map(s: Seq<char>) -> Seq<char>
    decreases s.len(),
{
    if s.len() == 0 {
        Seq::empty()
    } else {
        kebab_char(s[0]) + kebab_map(s.skip(1))
    }
}

/// Lowercase the string, then keep only `[a-z0-9-]`, with spaces turned
/// into hyphens and every other character dropped without a substitute.
pub fn kebab_ascii(s: &str) -> (r: String)
    ensures
        r@ == kebab_map(lower_of(s@)),
{
    let cs = chars_of(s);
    let out = kebab_chars(&cs);
    string_from_chars(&out)
}

/// The slug of a character vector.
pub(crate) fn kebab_chars(v: &Vec<char>) -> (r: Vec<char>)
    ensures
        r@ == kebab_map(lower_of(v@)),
{
    let low = lower_chars(v);
    let mut out: Vec<char> = Vec::new();
    proof {
        assert(low@.skip(0) =~= low@);
        assert(Seq::<char>::empty() + kebab_map(low@) =~= kebab_map(low@));
    }
    let mut i: usize = 0;
    while i < low.len()
        invariant
            i <= low@.len(),
            low@ == lower_of(v@),
            out@ + kebab_map(low@.skip(i as int)) == kebab_map(low@),
        decreases low@.len() - i,
    {
        let c = low[i];
        proof {
            assert(low@.skip(i as int)[0] == low@[i as int]);
            assert(low@.skip(i as int).skip(1) =~= low@.skip(i + 1 as int));
        }
        let ghost before = out@;
        if c == ' ' {
            out.push('-');
            proof {
                assert(out@ =~= before + kebab_char(low@[i as int]));
            }
        } else if (c >= 'a' && c <= 'z') || (c >= '0' && c <= '9') || c == '-' {
            out.push(c);
            proof {
                assert(out@ =~= before + kebab_char(low@[i as int]));
            }
        } else {
            proof {
                assert(out@ =~= before + kebab_char(low@[i as int]));
            }
        }
        proof {
            assert(before + (kebab_char(low@[i as int]) + kebab_map(low@.skip(i + 1 as int)))
                =~= (before + kebab_char(low@[i as int])) + kebab_map(low@.skip(i + 1 as int)));
        }
        i = i + 1;
    }
    proof {
        assert(low@.skip(low@.len() as int) =~= Seq::<char>::empty());
        assert(out@ + Seq::<char>::empty() =~= out@);
    }
    out
}

} // verus!
