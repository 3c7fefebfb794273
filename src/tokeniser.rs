//! The tokeniser: a state machine fed one character at a time.
use vstd::prelude::*;
use crate::char_table::CharTable;
use crate::escape_scheme::{EscapeScheme, SimpleEscapeScheme};
use vstd::std_specs::iter::IteratorSpec;
use crate::text::{chars_of, is_white_space, is_whitespace, push_char};

verus! {

/// A quote mode.
#[derive(Clone, Copy, Debug, PartialEq, Eq, Structural)]
pub enum QuoteMode {
    /// All characters but the closing one stand for themselves, as inside
    /// single quotes in a POSIX shell.
    IgnoreEscapes,
    /// Escape leaders keep their meaning; every other character but the
    /// closing one stands for itself, as inside double quotes in a POSIX shell.
    ParseEscapes,
}

/// Why a tokeniser could not be finished.
#[derive(Clone, Copy, Debug, PartialEq, Eq, Structural)]
pub enum Error {
    /// A quotation was opened, but not closed.
    UnmatchedQuote,
    /// An escape leader was read, but not the character it escapes.
    UnfinishedEscape,
}

/// A tokeniser.
///
/// It is fed characters one at a time, from a slice or from a line, and
/// each step hands back the new tokeniser. `into_strings` then yields the
/// words read, or the reason why the input ended in an unfinished state.
#[derive(Clone, Debug)]
pub struct Tokeniser {
    /// The words read so far; the last one is the word being built.
    vec: Vec<String>,
    /// Whether a word has been started and not yet ended.
    in_word: bool,
    /// The closing character and mode of the open quotation, if any.
    quote: Option<(char, QuoteMode)>,
    /// The escape leader whose escaped character comes next, if any.
    escaping: Option<char>,
    /// Maps each opening quote to its closing quote and mode.
    quote_pairs: CharTable<(char, QuoteMode)>,
    /// Maps each escape leader to its escape scheme.
    escape_schemes: CharTable<SimpleEscapeScheme>,
}

/// The abstract state of a tokeniser.
pub struct TokeniserView {
    /// The words read so far; the last one is the word being built.
    pub words: Seq<Seq<char>>,
    /// Whether a word has been started and not yet ended.
    pub in_word: bool,
    /// The closing character and mode of the open quotation, if any.
    pub quote: Option<(char, QuoteMode)>,
    /// The escape leader whose escaped character comes next, if any.
    pub escaping: Option<char>,
    /// Maps each opening quote to its closing quote and mode.
    pub quote_pairs: Map<char, (char, QuoteMode)>,
    /// Maps each escape leader to its escape scheme.
    pub escapes: Map<char, SimpleEscapeScheme>,
}

/// The characters of each string.
pub open spec fn words_of(v: Seq<String>) -> Seq<Seq<char>> {
    v.map_values(|s: String| s@)
}

/// The abstract value of what `into_strings` returns.
pub open spec fn result_view(r: Result<Vec<String>, Error>) -> Result<Seq<Seq<char>>, Error> {
    match r {
        Ok(v) => Ok(words_of(v@)),
        Err(e) => Err(e),
    }
}

impl View for Tokeniser {
    type V = TokeniserView;

    closed spec fn view(&self) -> TokeniserView {
        TokeniserView {
            words: words_of(self.vec@),
            in_word: self.in_word,
            quote: self.quote,
            escaping: self.escaping,
            quote_pairs: self.quote_pairs@,
            escapes: self.escape_schemes@,
        }
    }
}

impl TokeniserView {
    /// The states that a tokeniser can reach.
    pub open spec fn well_formed(self) -> bool {
        &&& self.words.len() >= 1
        &&& self.quote is Some ==> self.in_word
        &&& self.escaping is Some ==> self.in_word && self.escapes.contains_key(
            self.escaping->0,
        )
        &&& !self.in_word ==> self.words.last().len() == 0
    }

    /// A fresh state over the given configuration: one empty word being built.
    pub open spec fn fresh(
        quote_pairs: Map<char, (char, QuoteMode)>,
        escapes: Map<char, SimpleEscapeScheme>,
    ) -> TokeniserView {
        TokeniserView {
            words: seq![Seq::empty()],
            in_word: false,
            quote: None,
            escaping: None,
            quote_pairs,
            escapes,
        }
    }

    /// Appends `c` to the word being built, inside a word and not escaping.
    pub open spec fn emit(self, c: char) -> TokeniserView {
        TokeniserView {
            words: self.words.update(self.words.len() - 1, self.words.last().push(c)),
            in_word: true,
            escaping: None,
            ..self
        }
    }

    /// Whether `c` starts an escape in this state.
    pub open spec fn starts_escape(self, c: char) -> bool {
        &&& self.escapes.contains_key(c)
        &&& match self.quote {
            None => true,
            Some((_, mode)) => mode == QuoteMode::ParseEscapes,
        }
    }

    /// Whether `c` closes the open quotation.
    pub open spec fn closes_quote(self, c: char) -> bool {
        match self.quote {
            Some((closer, _)) => c == closer,
            None => false,
        }
    }

    /// The state after reading `c`: the first rule that applies decides.
    pub open spec fn step(self, c: char) -> TokeniserView {
        match self.escaping {
            Some(leader) => match self.escapes[leader].resolve(c) {
                // A known escape yields its substitute, an unknown one the
                // character itself.
                Some(x) => self.emit(x),
                None => self.emit(c),
            },
            None => if self.starts_escape(c) {
                TokeniserView { escaping: Some(c), in_word: true, ..self }
            } else if self.quote is None && self.quote_pairs.contains_key(c) {
                TokeniserView { quote: Some(self.quote_pairs[c]), in_word: true, ..self }
            } else if self.closes_quote(c) {
                TokeniserView { quote: None, in_word: true, ..self }
            } else if is_white_space(c) && self.quote is None {
                if self.in_word {
                    TokeniserView { words: self.words.push(Seq::empty()), in_word: false, ..self }
                } else {
                    self
                }
            } else {
                self.emit(c)
            },
        }
    }

    /// The state after reading each character of `s` in turn.
    pub open spec fn run(self, s: Seq<char>) -> TokeniserView
        decreases s.len(),
    {
        if s.len() == 0 {
            self
        } else {
            self.run(s.drop_last()).step(s.last())
        }
    }

    /// What finishing in this state yields: an error for an open quotation
    /// or a pending escape, else the words without an empty last one.
    pub open spec fn finish(self) -> Result<Seq<Seq<char>>, Error> {
        if self.in_word && self.quote is Some {
            Err(Error::UnmatchedQuote)
        } else if self.escaping is Some {
            Err(Error::UnfinishedEscape)
        } else if self.words.len() > 0 && self.words.last().len() == 0 {
            Ok(self.words.drop_last())
        } else {
            Ok(self.words)
        }
    }
}

/// `s` without its leading whitespace.
pub open spec fn trim_start(s: Seq<char>) -> Seq<char>
    decreases s.len(),
{
    if s.len() > 0 && is_white_space(s[0]) {
        trim_start(s.drop_first())
    } else {
        s
    }
}

/// `s` without its trailing whitespace.
pub open spec fn trim_end(s: Seq<char>) -> Seq<char>
    decreases s.len(),
{
    if s.len() > 0 && is_white_space(s.last()) {
        trim_end(s.drop_last())
    } else {
        s
    }
}

/// `s` without its leading and trailing whitespace.
pub open spec fn trim(s: Seq<char>) -> Seq<char> {
    trim_end(trim_start(s))
}

/// Running over `s` and then `c` is one more step after running over `s`.
pub proof fn lemma_run_push(t: TokeniserView, s: Seq<char>, c: char)
    ensures
        t.run(s.push(c)) == t.run(s).step(c),
{
    assert(s.push(c).drop_last() =~= s);
}

/// Each step keeps a state well formed.
pub proof fn lemma_step_well_formed(t: TokeniserView, c: char)
    requires
        t.well_formed(),
    ensures
        t.step(c).well_formed(),
{
}

impl Tokeniser {
    /// A blank tokeniser over the given quote pairs and escape schemes.
    pub fn new(
        quote_pairs: CharTable<(char, QuoteMode)>,
        escape_pairs: CharTable<SimpleEscapeScheme>,
    ) -> (r: Self)
        ensures
            r@ == TokeniserView::fresh(quote_pairs@, escape_pairs@),
            r@.well_formed(),
    {
        let r = Tokeniser {
            vec: vec![String::new()],
            in_word: false,
            quote: None,
            escaping: None,
            quote_pairs,
            escape_schemes: escape_pairs,
        };
        assert(r@.words =~= seq![Seq::<char>::empty()]);
        r
    }

    /// Appends `c` to the word being built; now inside a word, not escaping.
    fn emit(&mut self, c: char)
        requires
            old(self)@.words.len() >= 1,
        ensures
            final(self)@ == old(self)@.emit(c),
    {
        let ghost before = self@;
        self.in_word = true;
        self.escaping = None;
        let mut last = self.vec.pop().unwrap();
        push_char(&mut last, c);
        self.vec.push(last);
        assert(self@.words =~= before.words.update(before.words.len() - 1, before.words.last().push(c)));
    }

    /// Starts an escape introduced by `leader`; now inside a word.
    fn start_escaping(&mut self, leader: char)
        ensures
            final(self)@ == (TokeniserView { escaping: Some(leader), in_word: true, ..old(self)@ }),
    {
        self.escaping = Some(leader);
        self.in_word = true;
    }

    /// Feeds one character to the tokeniser.
    pub fn add_char(self, chr: char) -> (r: Self)
        requires
            self@.well_formed(),
        ensures
            r@ == self@.step(chr),
            r@.well_formed(),
    {
        proof {
            lemma_step_well_formed(self@, chr);
        }
        let mut new = self;
        match new.escaping {
            Some(leader) => {
                let resolved = match new.escape_schemes.get(leader) {
                    Some(scheme) => scheme.escape(chr),
                    None => None,
                };
                match resolved {
                    Some(x) => new.emit(x),
                    None => new.emit(chr),
                }
            },
            None => {
                let recognised = match new.quote {
                    None => true,
                    Some((_, mode)) => mode == QuoteMode::ParseEscapes,
                };
                if recognised && new.escape_schemes.contains_key(chr) {
                    new.start_escaping(chr);
                } else {
                    let opened = match new.quote {
                        None => match new.quote_pairs.get(chr) {
                            Some(pair) => Some(*pair),
                            None => None,
                        },
                        Some(_) => None,
                    };
                    match opened {
                        Some(pair) => {
                            new.quote = Some(pair);
                            new.in_word = true;
                        },
                        None => {
                            let closes = match new.quote {
                                Some((closer, _)) => chr == closer,
                                None => false,
                            };
                            if closes {
                                new.quote = None;
                                new.in_word = true;
                            } else if new.quote.is_none() && is_whitespace(chr) {
                                if new.in_word {
                                    new.in_word = false;
                                    new.vec.push(String::new());
                                    assert(new@.words =~= self@.words.push(Seq::empty()));
                                }
                            } else {
                                new.emit(chr);
                            }
                        },
                    }
                }
            },
        }
        new
    }

    /// Feeds the characters that `chars` yields to the tokeniser, in order.
    pub fn add_iterator<I: Iterator<Item = char>>(self, chars: I) -> (r: Self)
        requires
            self@.well_formed(),
            chars.obeys_prophetic_iter_laws(),
            chars.decrease() is Some,
        ensures
            r@ == self@.run(chars.remaining()),
            r@.well_formed(),
    {
        let ghost start = self@;
        let ghost all = chars.remaining();
        let ghost mut read: Seq<char> = Seq::empty();
        let mut it = chars;
        let mut t = self;
        assert(all =~= read + it.remaining());
        loop
            invariant
                t@.well_formed(),
                it.obeys_prophetic_iter_laws(),
                it.decrease() is Some,
                all == read + it.remaining(),
                t@ == start.run(read),
            ensures
                t@ == start.run(all),
            decreases it.decrease()->0,
        {
            let ghost before = it.remaining();
            match it.next() {
                Some(c) => {
                    proof {
                        lemma_run_push(start, read, c);
                        assert(read.push(c) + it.remaining() =~= read + before);
                        read = read.push(c);
                    }
                    t = t.add_char(c);
                },
                None => {
                    assert(read + it.remaining() =~= read);
                    assert(read == all);
                    break;
                },
            }
        }
        t
    }

    /// Feeds `chars[from..to]` to the tokeniser, in order.
    fn add_range(self, chars: &[char], from: usize, to: usize) -> (r: Self)
        requires
            self@.well_formed(),
            from <= to <= chars@.len(),
        ensures
            r@ == self@.run(chars@.subrange(from as int, to as int)),
            r@.well_formed(),
    {
        let ghost start = self@;
        let mut t = self;
        let mut i: usize = from;
        assert(chars@.subrange(from as int, from as int) =~= Seq::<char>::empty());
        while i < to
            invariant
                from <= i <= to <= chars@.len(),
                t@.well_formed(),
                t@ == start.run(chars@.subrange(from as int, i as int)),
            decreases to - i,
        {
            proof {
                assert(chars@.subrange(from as int, i + 1) =~= chars@.subrange(from as int, i as int).push(chars@[i as int]));
                lemma_run_push(start, chars@.subrange(from as int, i as int), chars@[i as int]);
            }
            t = t.add_char(chars[i]);
            i = i + 1;
        }
        t
    }

    /// Feeds a line to the tokeniser, without its leading and trailing
    /// whitespace.
    pub fn add_line(self, line: &str) -> (r: Self)
        requires
            self@.well_formed(),
        ensures
            r@ == self@.run(trim(line@)),
            r@.well_formed(),
    {
        let chars = chars_of(line);
        let (from, to) = trimmed_bounds(&chars);
        self.add_range(chars.as_slice(), from, to)
    }

    /// Drops the word being built, if it is empty.
    fn drop_empty_current_string(&mut self)
        ensures
            final(self)@ == (if old(self)@.words.len() > 0 && old(self)@.words.last().len() == 0 {
                TokeniserView { words: old(self)@.words.drop_last(), ..old(self)@ }
            } else {
                old(self)@
            }),
    {
        let ghost before = self@;
        let n = self.vec.len();
        if n > 0 && self.vec[n - 1].as_str().is_empty() {
            self.vec.pop();
            assert(self@.words =~= before.words.drop_last());
        }
    }

    /// Finishes the tokeniser, yielding the words read, or the reason why
    /// the input ended in an unfinished state.
    pub fn into_strings(self) -> (r: Result<Vec<String>, Error>)
        ensures
            result_view(r) == self@.finish(),
    {
        let mut t = self;
        if t.in_word && t.quote.is_some() {
            Err(Error::UnmatchedQuote)
        } else if t.escaping.is_some() {
            Err(Error::UnfinishedEscape)
        } else {
            t.drop_empty_current_string();
            Ok(t.vec)
        }
    }
}

/// The bounds of `chars` without its leading and trailing whitespace.
fn trimmed_bounds(chars: &Vec<char>) -> (r: (usize, usize))
    ensures
        r.0 <= r.1 <= chars@.len(),
        chars@.subrange(r.0 as int, r.1 as int) == trim(chars@),
{
    let n = chars.len();
    let mut from: usize = 0;
    assert(chars@.subrange(0, n as int) =~= chars@);
    while from < n && is_whitespace(chars[from])
        invariant
            from <= n == chars@.len(),
            trim_start(chars@) == trim_start(chars@.subrange(from as int, n as int)),
        decreases n - from,
    {
        assert(chars@.subrange(from as int, n as int).drop_first() =~= chars@.subrange(from + 1, n as int));
        from = from + 1;
    }
    let mut to: usize = n;
    assert(trim_start(chars@) == chars@.subrange(from as int, n as int));
    while to > from && is_whitespace(chars[to - 1])
        invariant
            from <= to <= n == chars@.len(),
            trim(chars@) == trim_end(chars@.subrange(from as int, to as int)),
        decreases to,
    {
        assert(chars@.subrange(from as int, to as int).drop_last() =~= chars@.subrange(from as int, to - 1));
        to = to - 1;
    }
    (from, to)
}

} // verus!
