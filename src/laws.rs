//! What holds of every input: plain input splits on whitespace, splitting
//! survives re-joining, and how unfinished input ends.
use vstd::prelude::*;
use crate::escape_scheme::SimpleEscapeScheme;
use crate::text::{is_white_space, join_words, split_whitespace};
use crate::tokeniser::{trim, trim_end, trim_start, Error, QuoteMode, TokeniserView};

verus! {

/// Whether no character of `s` opens a quotation or leads an escape.
pub open spec fn is_plain(
    quote_pairs: Map<char, (char, QuoteMode)>,
    escapes: Map<char, SimpleEscapeScheme>,
    s: Seq<char>,
) -> bool {
    forall|i: int|
        0 <= i < s.len() ==> !quote_pairs.contains_key(#[trigger] s[i]) && !escapes.contains_key(
            s[i],
        )
}

proof fn lemma_trim_start_suffix(s: Seq<char>)
    ensures
        trim_start(s).len() <= s.len(),
        trim_start(s) == s.subrange(s.len() - trim_start(s).len(), s.len() as int),
    decreases s.len(),
{
    if s.len() > 0 && is_white_space(s[0]) {
        lemma_trim_start_suffix(s.drop_first());
        assert(s.drop_first().subrange(
            s.drop_first().len() - trim_start(s).len(),
            s.drop_first().len() as int,
        ) =~= s.subrange(s.len() - trim_start(s).len(), s.len() as int));
    } else {
        assert(s.subrange(0, s.len() as int) =~= s);
    }
}

proof fn lemma_trim_end_prefix(s: Seq<char>)
    ensures
        trim_end(s).len() <= s.len(),
        trim_end(s) == s.subrange(0, trim_end(s).len() as int),
    decreases s.len(),
{
    if s.len() > 0 && is_white_space(s.last()) {
        lemma_trim_end_prefix(s.drop_last());
        assert(s.drop_last().subrange(0, trim_end(s).len() as int) =~= s.subrange(
            0,
            trim_end(s).len() as int,
        ));
    } else {
        assert(s.subrange(0, s.len() as int) =~= s);
    }
}

/// Trimming keeps a plain input plain.
proof fn lemma_trim_plain(
    quote_pairs: Map<char, (char, QuoteMode)>,
    escapes: Map<char, SimpleEscapeScheme>,
    s: Seq<char>,
)
    requires
        is_plain(quote_pairs, escapes, s),
    ensures
        is_plain(quote_pairs, escapes, trim(s)),
{
    let a = trim_start(s);
    lemma_trim_start_suffix(s);
    lemma_trim_end_prefix(a);
    let k = s.len() - a.len();
    assert forall|i: int| 0 <= i < a.len() implies !quote_pairs.contains_key(#[trigger] a[i])
        && !escapes.contains_key(a[i]) by {
        assert(a[i] == s[k + i]);
    }
    assert forall|i: int| 0 <= i < trim(s).len() implies !quote_pairs.contains_key(
        #[trigger] trim(s)[i],
    ) && !escapes.contains_key(trim(s)[i]) by {
        assert(trim(s)[i] == a[i]);
    }
}

/// Whitespace at the end of the input adds no word.
proof fn lemma_split_trim_end(s: Seq<char>)
    ensures
        split_whitespace(trim_end(s)) == split_whitespace(s),
    decreases s.len(),
{
    if s.len() > 0 && is_white_space(s.last()) {
        lemma_split_trim_end(s.drop_last());
    }
}

/// A whitespace character in front of the input adds no word.
proof fn lemma_split_leading_white_space(w: char, s: Seq<char>)
    requires
        is_white_space(w),
    ensures
        split_whitespace(seq![w] + s) == split_whitespace(s),
    decreases s.len(),
{
    let ws = seq![w] + s;
    if s.len() == 0 {
        assert(ws.drop_last() =~= Seq::<char>::empty());
        assert(ws.last() == w);
        assert(split_whitespace(Seq::<char>::empty()) == Seq::<Seq<char>>::empty());
    } else {
        lemma_split_leading_white_space(w, s.drop_last());
        assert(ws.drop_last() =~= seq![w] + s.drop_last());
        assert(ws.last() == s.last());
        if s.len() > 1 {
            assert(ws[ws.len() - 2] == s[s.len() - 2]);
        } else {
            assert(ws[ws.len() - 2] == w);
        }
    }
}

/// Whitespace at the start of the input adds no word.
proof fn lemma_split_trim_start(s: Seq<char>)
    ensures
        split_whitespace(trim_start(s)) == split_whitespace(s),
    decreases s.len(),
{
    if s.len() > 0 && is_white_space(s[0]) {
        lemma_split_trim_start(s.drop_first());
        lemma_split_leading_white_space(s[0], s.drop_first());
        assert(seq![s[0]] + s.drop_first() =~= s);
    }
}

/// A fresh tokeniser run over plain input holds the input's words, with an
/// empty word being built when the input does not end inside a word.
proof fn lemma_run_plain(
    quote_pairs: Map<char, (char, QuoteMode)>,
    escapes: Map<char, SimpleEscapeScheme>,
    u: Seq<char>,
)
    requires
        is_plain(quote_pairs, escapes, u),
    ensures
        ({
            let t = TokeniserView::fresh(quote_pairs, escapes).run(u);
            &&& t.quote is None
            &&& t.escaping is None
            &&& t.quote_pairs == quote_pairs
            &&& t.escapes == escapes
            &&& t.in_word == (u.len() > 0 && !is_white_space(u.last()))
            &&& t.in_word ==> t.words == split_whitespace(u) && t.words.len() > 0
                && t.words.last().len() > 0
            &&& !t.in_word ==> t.words == split_whitespace(u).push(Seq::empty())
        }),
    decreases u.len(),
{
    if u.len() > 0 {
        let p = u.drop_last();
        let c = u.last();
        assert forall|i: int| 0 <= i < p.len() implies !quote_pairs.contains_key(#[trigger] p[i])
            && !escapes.contains_key(p[i]) by {
            assert(p[i] == u[i]);
        }
        lemma_run_plain(quote_pairs, escapes, p);
        assert(!quote_pairs.contains_key(u[u.len() - 1]));
        let t = TokeniserView::fresh(quote_pairs, escapes).run(p);
        if !is_white_space(c) && !t.in_word {
            assert(t.words.update(t.words.len() - 1, t.words.last().push(c)) =~= split_whitespace(
                p,
            ).push(seq![c]));
        }
        if p.len() > 0 {
            assert(u[u.len() - 2] == p.last());
        }
    }
}

/// Input in which no character opens a quotation or leads an escape is
/// split exactly as plain whitespace splitting splits it.
pub proof fn lemma_plain_input_splits_on_whitespace(
    quote_pairs: Map<char, (char, QuoteMode)>,
    escapes: Map<char, SimpleEscapeScheme>,
    s: Seq<char>,
)
    requires
        is_plain(quote_pairs, escapes, s),
    ensures
        TokeniserView::fresh(quote_pairs, escapes).run(trim(s)).finish() == Ok::<
            Seq<Seq<char>>,
            Error,
        >(split_whitespace(s)),
{
    lemma_trim_plain(quote_pairs, escapes, s);
    lemma_run_plain(quote_pairs, escapes, trim(s));
    lemma_split_trim_end(trim_start(s));
    lemma_split_trim_start(s);
    let t = TokeniserView::fresh(quote_pairs, escapes).run(trim(s));
    if !t.in_word {
        assert(t.words.drop_last() =~= split_whitespace(trim(s)));
    }
}

/// Whether every word of `ws` is non-empty, free of whitespace, and holds
/// no character that opens a quotation or leads an escape.
pub open spec fn are_plain_words(
    quote_pairs: Map<char, (char, QuoteMode)>,
    escapes: Map<char, SimpleEscapeScheme>,
    ws: Seq<Seq<char>>,
) -> bool {
    forall|j: int|
        0 <= j < ws.len() ==> {
            &&& (#[trigger] ws[j]).len() > 0
            &&& is_plain(quote_pairs, escapes, ws[j])
            &&& forall|k: int| 0 <= k < ws[j].len() ==> !is_white_space(#[trigger] ws[j][k])
        }
}

/// Input that ends in a character other than whitespace has a word.
proof fn lemma_split_ends_in_word(s: Seq<char>)
    requires
        s.len() > 0,
        !is_white_space(s.last()),
    ensures
        split_whitespace(s).len() > 0,
    decreases s.len(),
{
    if s.len() > 1 && !is_white_space(s[s.len() - 2]) {
        assert(s.drop_last().last() == s[s.len() - 2]);
        lemma_split_ends_in_word(s.drop_last());
    }
}

/// The words of a plain input are plain words.
proof fn lemma_split_plain_words(
    quote_pairs: Map<char, (char, QuoteMode)>,
    escapes: Map<char, SimpleEscapeScheme>,
    s: Seq<char>,
)
    requires
        is_plain(quote_pairs, escapes, s),
    ensures
        are_plain_words(quote_pairs, escapes, split_whitespace(s)),
    decreases s.len(),
{
    if s.len() > 0 {
        let p = s.drop_last();
        let c = s.last();
        assert forall|i: int| 0 <= i < p.len() implies !quote_pairs.contains_key(#[trigger] p[i])
            && !escapes.contains_key(p[i]) by {
            assert(p[i] == s[i]);
        }
        lemma_split_plain_words(quote_pairs, escapes, p);
        assert(!quote_pairs.contains_key(s[s.len() - 1]));
        let init = split_whitespace(p);
        if !is_white_space(c) {
            if s.len() > 1 && !is_white_space(s[s.len() - 2]) {
                assert(p.len() > 0 && !is_white_space(p.last()));
                lemma_split_ends_in_word(p);
                let last = init.last().push(c);
                let res = init.update(init.len() - 1, last);
                assert forall|j: int| 0 <= j < res.len() implies {
                    &&& (#[trigger] res[j]).len() > 0
                    &&& is_plain(quote_pairs, escapes, res[j])
                    &&& forall|k: int|
                        0 <= k < res[j].len() ==> !is_white_space(#[trigger] res[j][k])
                } by {
                    if j == init.len() - 1 {
                        assert(res[j] == last);
                        assert forall|k: int| 0 <= k < last.len() implies !quote_pairs.contains_key(
                            #[trigger] last[k],
                        ) && !escapes.contains_key(last[k]) && !is_white_space(last[k]) by {
                            if k < init.last().len() {
                                assert(last[k] == init[j][k]);
                            }
                        }
                    } else {
                        assert(res[j] == init[j]);
                    }
                }
            } else {
                let res = init.push(seq![c]);
                assert forall|j: int| 0 <= j < res.len() implies {
                    &&& (#[trigger] res[j]).len() > 0
                    &&& is_plain(quote_pairs, escapes, res[j])
                    &&& forall|k: int|
                        0 <= k < res[j].len() ==> !is_white_space(#[trigger] res[j][k])
                } by {
                    if j == init.len() {
                        assert(res[j] == seq![c]);
                        assert(seq![c][0] == c);
                    } else {
                        assert(res[j] == init[j]);
                    }
                }
            }
        }
    }
}

/// A word after whitespace (or at the start) becomes the last word.
proof fn lemma_split_append_word(x: Seq<char>, w: Seq<char>)
    requires
        x.len() == 0 || is_white_space(x.last()),
        w.len() > 0,
        forall|k: int| 0 <= k < w.len() ==> !is_white_space(#[trigger] w[k]),
    ensures
        split_whitespace(x + w) == split_whitespace(x).push(w),
    decreases w.len(),
{
    let xw = x + w;
    assert(xw.drop_last() =~= x + w.drop_last());
    assert(xw.last() == w.last());
    if w.len() == 1 {
        assert(x + w.drop_last() =~= x);
        assert(w =~= seq![w[0]]);
        if x.len() > 0 {
            assert(xw[xw.len() - 2] == x.last());
        }
    } else {
        lemma_split_append_word(x, w.drop_last());
        assert(xw[xw.len() - 2] == w[w.len() - 2]);
        assert(w.drop_last().push(w.last()) =~= w);
        assert(split_whitespace(x).push(w.drop_last()).update(
            split_whitespace(x).len() as int,
            w.drop_last().push(w.last()),
        ) =~= split_whitespace(x).push(w));
    }
}

/// Splitting words joined by spaces gives the words back.
proof fn lemma_split_join(
    quote_pairs: Map<char, (char, QuoteMode)>,
    escapes: Map<char, SimpleEscapeScheme>,
    ws: Seq<Seq<char>>,
)
    requires
        are_plain_words(quote_pairs, escapes, ws),
        !quote_pairs.contains_key(' '),
        !escapes.contains_key(' '),
    ensures
        split_whitespace(join_words(ws)) == ws,
        is_plain(quote_pairs, escapes, join_words(ws)),
    decreases ws.len(),
{
    if ws.len() == 1 {
        assert(ws[0].len() > 0);
        lemma_split_append_word(Seq::empty(), ws[0]);
        assert(Seq::<char>::empty() + ws[0] =~= ws[0]);
        assert(seq![ws[0]] =~= ws);
    } else if ws.len() > 1 {
        let init = ws.drop_last();
        assert forall|j: int| 0 <= j < init.len() implies {
            &&& (#[trigger] init[j]).len() > 0
            &&& is_plain(quote_pairs, escapes, init[j])
            &&& forall|k: int| 0 <= k < init[j].len() ==> !is_white_space(#[trigger] init[j][k])
        } by {
            assert(init[j] == ws[j]);
        }
        lemma_split_join(quote_pairs, escapes, init);
        let x = join_words(init).push(' ');
        let w = ws.last();
        assert(w == ws[ws.len() - 1]);
        assert(x.last() == ' ');
        assert(is_white_space(' '));
        lemma_split_append_word(x, w);
        assert(x.drop_last() =~= join_words(init));
        assert(split_whitespace(x) == split_whitespace(join_words(init)));
        assert(init.push(w) =~= ws);
        let j = x + w;
        assert forall|i: int| 0 <= i < j.len() implies !quote_pairs.contains_key(#[trigger] j[i])
            && !escapes.contains_key(j[i]) by {
            if i < join_words(init).len() {
                assert(j[i] == join_words(init)[i]);
            } else if i == join_words(init).len() {
                assert(j[i] == ' ');
            } else {
                assert(j[i] == w[i - x.len()]);
            }
        }
    }
}

/// Input in which no character opens a quotation or leads an escape, and
/// where a space does neither, tokenises to words that, joined by single
/// spaces and tokenised again, give the same words.
pub proof fn lemma_rejoined_words_tokenise_the_same(
    quote_pairs: Map<char, (char, QuoteMode)>,
    escapes: Map<char, SimpleEscapeScheme>,
    s: Seq<char>,
)
    requires
        is_plain(quote_pairs, escapes, s),
        !quote_pairs.contains_key(' '),
        !escapes.contains_key(' '),
    ensures
        ({
            let fresh = TokeniserView::fresh(quote_pairs, escapes);
            let words = split_whitespace(s);
            &&& fresh.run(trim(s)).finish() == Ok::<Seq<Seq<char>>, Error>(words)
            &&& fresh.run(trim(join_words(words))).finish() == Ok::<Seq<Seq<char>>, Error>(words)
        }),
{
    lemma_plain_input_splits_on_whitespace(quote_pairs, escapes, s);
    lemma_split_plain_words(quote_pairs, escapes, s);
    lemma_split_join(quote_pairs, escapes, split_whitespace(s));
    lemma_plain_input_splits_on_whitespace(quote_pairs, escapes, join_words(split_whitespace(s)));
}

/// Input made only of whitespace, the empty input included, yields no words.
pub proof fn lemma_blank_input_yields_no_words(
    quote_pairs: Map<char, (char, QuoteMode)>,
    escapes: Map<char, SimpleEscapeScheme>,
    s: Seq<char>,
)
    requires
        forall|i: int| 0 <= i < s.len() ==> is_white_space(#[trigger] s[i]),
    ensures
        TokeniserView::fresh(quote_pairs, escapes).run(trim(s)).finish() == Ok::<
            Seq<Seq<char>>,
            Error,
        >(Seq::empty()),
    decreases s.len(),
{
    if s.len() > 0 {
        assert forall|i: int| 0 <= i < s.drop_first().len() implies is_white_space(
            #[trigger] s.drop_first()[i],
        ) by {
            assert(s.drop_first()[i] == s[i + 1]);
        }
        lemma_blank_input_yields_no_words(quote_pairs, escapes, s.drop_first());
        assert(is_white_space(s[0]));
    } else {
        let t = TokeniserView::fresh(quote_pairs, escapes);
        assert(t.words.drop_last() =~= Seq::<Seq<char>>::empty());
    }
}

/// Reading characters other than the closer keeps a quotation open.
proof fn lemma_run_inside_quote(t: TokeniserView, r: Seq<char>)
    requires
        t.quote is Some,
        t.in_word,
        forall|i: int| 0 <= i < r.len() ==> !t.closes_quote(#[trigger] r[i]),
    ensures
        t.run(r).quote == t.quote,
        t.run(r).in_word,
    decreases r.len(),
{
    if r.len() > 0 {
        assert forall|i: int| 0 <= i < r.drop_last().len() implies !t.closes_quote(
            #[trigger] r.drop_last()[i],
        ) by {
            assert(r.drop_last()[i] == r[i]);
        }
        lemma_run_inside_quote(t, r.drop_last());
        assert(r.last() == r[r.len() - 1]);
    }
}

/// A quotation opened outside any quotation or escape and never closed
/// leaves the input unmatched, whatever came before it.
pub proof fn lemma_unclosed_quote_is_unmatched(t: TokeniserView, opener: char, rest: Seq<char>)
    requires
        t.well_formed(),
        t.escaping is None,
        t.quote is None,
        t.quote_pairs.contains_key(opener),
        !t.escapes.contains_key(opener),
        forall|i: int| 0 <= i < rest.len() ==> #[trigger] rest[i] != t.quote_pairs[opener].0,
    ensures
        t.step(opener).run(rest).finish() == Err::<Seq<Seq<char>>, Error>(Error::UnmatchedQuote),
{
    lemma_run_inside_quote(t.step(opener), rest);
}

/// An escape leader read outside any quotation and outside an escape, as
/// the last character, leaves the escape unfinished.
pub proof fn lemma_trailing_leader_is_unfinished(t: TokeniserView, leader: char)
    requires
        t.well_formed(),
        t.escaping is None,
        t.quote is None,
        t.escapes.contains_key(leader),
    ensures
        t.step(leader).finish() == Err::<Seq<Seq<char>>, Error>(Error::UnfinishedEscape),
{
}

} // verus!
