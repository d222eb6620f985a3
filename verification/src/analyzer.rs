//! The streaming tokenizer: splits text on non-alphanumeric characters and
//! yields the maximal alphanumeric runs, in order.

use vstd::prelude::*;

use crate::chars::{alphanumeric_char, chars_to_string, is_alphanumeric_char, str_to_chars};

verus! {

/// Length of the maximal alphanumeric run at the head of `s`.
pub open spec fn run_len(s: Seq<char>) -> nat
    decreases s.len(),
{
    if s.len() == 0 || !alphanumeric_char(s[0]) {
        0
    } else {
        1 + run_len(s.drop_first())
    }
}

/// The tokens of `s`: its maximal alphanumeric runs, in order.
pub open spec fn tokens_of(s: Seq<char>) -> Seq<Seq<char>>
    decreases s.len(),
    via tokens_of_decreases
{
    if s.len() == 0 {
        Seq::empty()
    } else if !alphanumeric_char(s[0]) {
        tokens_of(s.drop_first())
    } else {
        seq![s.take(run_len(s) as int)] + tokens_of(s.skip(run_len(s) as int))
    }
}

#[via_fn]
proof fn tokens_of_decreases(s: Seq<char>) {
    if s.len() > 0 && alphanumeric_char(s[0]) {
        lemma_run_len(s);
        assert(run_len(s) == 1 + run_len(s.drop_first()));
    }
}

/// The head run is exactly the longest alphanumeric prefix.
pub proof fn lemma_run_len(s: Seq<char>)
    ensures
        run_len(s) <= s.len(),
        forall|i: int| 0 <= i < run_len(s) ==> alphanumeric_char(s[i]),
        run_len(s) < s.len() ==> !alphanumeric_char(s[run_len(s) as int]),
    decreases s.len(),
{
    if s.len() > 0 && alphanumeric_char(s[0]) {
        lemma_run_len(s.drop_first());
        assert forall|i: int| 0 <= i < run_len(s) implies alphanumeric_char(s[i]) by {
            if i > 0 {
                assert(s.drop_first()[i - 1] == s[i]);
            }
        }
        if run_len(s) < s.len() {
            assert(s.drop_first()[run_len(s) - 1] == s[run_len(s) as int]);
        }
    }
}

/// Any longest alphanumeric prefix is the head run.
pub proof fn lemma_run_len_is(s: Seq<char>, k: int)
    requires
        0 <= k <= s.len(),
        forall|i: int| 0 <= i < k ==> alphanumeric_char(s[i]),
        k < s.len() ==> !alphanumeric_char(s[k]),
    ensures
        run_len(s) == k,
    decreases s.len(),
{
    if k == 0 {
    } else {
        assert(alphanumeric_char(s[0]));
        assert forall|i: int| 0 <= i < k - 1 implies alphanumeric_char(s.drop_first()[i]) by {
            assert(s.drop_first()[i] == s[i + 1]);
        }
        if k - 1 < s.drop_first().len() {
            assert(s.drop_first()[k - 1] == s[k]);
        }
        lemma_run_len_is(s.drop_first(), k - 1);
    }
}

/// Whether every character of `t` is alphanumeric.
pub open spec fn all_alphanumeric(t: Seq<char>) -> bool {
    forall|j: int| 0 <= j < t.len() ==> alphanumeric_char(t[j])
}

/// Every token is a nonempty, all-alphanumeric run.
pub proof fn lemma_tokens_alphanumeric(s: Seq<char>)
    ensures
        forall|i: int| 0 <= i < tokens_of(s).len() ==> (#[trigger] tokens_of(s)[i]).len() > 0,
        forall|i: int| 0 <= i < tokens_of(s).len() ==> all_alphanumeric(#[trigger] tokens_of(s)[i]),
    decreases s.len(),
{
    if s.len() == 0 {
    } else if !alphanumeric_char(s[0]) {
        lemma_tokens_alphanumeric(s.drop_first());
        assert(tokens_of(s) == tokens_of(s.drop_first()));
        assert forall|i: int|
            0 <= i < tokens_of(s).len() implies (#[trigger] tokens_of(s)[i]).len() > 0
                && all_alphanumeric(tokens_of(s)[i]) by {
            assert(tokens_of(s)[i] == tokens_of(s.drop_first())[i]);
        }
    } else {
        lemma_run_len(s);
        let r = run_len(s) as int;
        let head = s.take(r);
        let tail = tokens_of(s.skip(r));
        assert(run_len(s) == 1 + run_len(s.drop_first()));
        assert(tokens_of(s) == seq![head] + tail);
        lemma_tokens_alphanumeric(s.skip(r));
        assert(head.len() > 0);
        assert(all_alphanumeric(head)) by {
            assert forall|j: int| 0 <= j < head.len() implies alphanumeric_char(head[j]) by {
                assert(head[j] == s[j]);
            }
        }
        assert forall|i: int|
            0 <= i < tokens_of(s).len() implies (#[trigger] tokens_of(s)[i]).len() > 0
                && all_alphanumeric(tokens_of(s)[i]) by {
            if i == 0 {
                assert(tokens_of(s)[0] == head);
            } else {
                assert(tokens_of(s)[i] == tail[i - 1]);
            }
        }
    }
}

/// Tokenizing a nonempty all-alphanumeric string yields that string as its
/// one token.
pub proof fn lemma_tokens_of_run(t: Seq<char>)
    requires
        t.len() > 0,
        all_alphanumeric(t),
    ensures
        tokens_of(t) == seq![t],
{
    lemma_run_len_is(t, t.len() as int);
    assert(t.take(t.len() as int) =~= t);
    assert(t.skip(t.len() as int) =~= Seq::<char>::empty());
    assert(tokens_of(Seq::<char>::empty()) =~= Seq::<Seq<char>>::empty());
    assert(tokens_of(t) =~= seq![t]);
}

/// Re-tokenizing any produced token yields exactly that token again.
pub proof fn lemma_retokenize(s: Seq<char>, i: int)
    requires
        0 <= i < tokens_of(s).len(),
    ensures
        tokens_of(tokens_of(s)[i]) == seq![tokens_of(s)[i]],
{
    lemma_tokens_alphanumeric(s);
    lemma_tokens_of_run(tokens_of(s)[i]);
}

/// A pull stream of tokens over a fixed input.
pub struct TokenStream {
    chars: Vec<char>,
    pos: usize,
}

impl TokenStream {
    pub closed spec fn wf(self) -> bool {
        self.pos <= self.chars@.len()
    }

    /// The input characters not yet consumed.
    pub closed spec fn remaining(self) -> Seq<char> {
        self.chars@.skip(self.pos as int)
    }

    /// The tokens this stream will still yield.
    pub open spec fn toks(self) -> Seq<Seq<char>> {
        tokens_of(self.remaining())
    }

    /// Yields the next token, or `None` at the end of the input.
    pub fn next(&mut self) -> (r: Option<String>)
        requires
            old(self).wf(),
        ensures
            final(self).wf(),
            match r {
                Some(tok) => old(self).toks().len() > 0 && tok@ == old(self).toks()[0]
                    && final(self).toks() == old(self).toks().drop_first(),
                None => old(self).toks().len() == 0 && final(self).toks() == old(self).toks(),
            },
    {
        let n = self.chars.len();
        while self.pos < n && !is_alphanumeric_char(self.chars[self.pos])
            invariant
                n == self.chars@.len(),
                self.pos <= n,
                self.chars == old(self).chars,
                tokens_of(self.remaining()) == old(self).toks(),
            decreases n - self.pos,
        {
            proof {
                assert(self.remaining().drop_first() =~= self.chars@.skip(self.pos + 1));
            }
            self.pos = self.pos + 1;
        }
        if self.pos == n {
            proof {
                assert(self.remaining() =~= Seq::<char>::empty());
            }
            return None;
        }
        let ghost entry = self.remaining();
        let ghost p0 = self.pos as int;
        let start = self.pos;
        let mut token: Vec<char> = Vec::new();
        while self.pos < n && is_alphanumeric_char(self.chars[self.pos])
            invariant
                n == self.chars@.len(),
                start <= self.pos <= n,
                start == p0,
                self.chars == old(self).chars,
                entry == self.chars@.skip(p0),
                token@ == self.chars@.subrange(p0, self.pos as int),
                forall|j: int| p0 <= j < self.pos ==> alphanumeric_char(self.chars@[j]),
            decreases n - self.pos,
        {
            token.push(self.chars[self.pos]);
            proof {
                assert(token@ =~= self.chars@.subrange(p0, self.pos + 1));
            }
            self.pos = self.pos + 1;
        }
        proof {
            let p = self.pos as int;
            assert forall|i: int| 0 <= i < p - p0 implies alphanumeric_char(entry[i]) by {
                assert(entry[i] == self.chars@[p0 + i]);
            }
            if p - p0 < entry.len() {
                assert(entry[p - p0] == self.chars@[p]);
            }
            lemma_run_len_is(entry, p - p0);
            assert(alphanumeric_char(entry[0]));
            assert(tokens_of(entry) == seq![entry.take(p - p0)] + tokens_of(entry.skip(p - p0)));
            assert(token@ =~= entry.take(p - p0));
            assert(self.remaining() =~= entry.skip(p - p0));
            assert(tokens_of(entry)[0] == token@);
            assert(tokens_of(entry).drop_first() =~= tokens_of(self.remaining()));
        }
        Some(chars_to_string(&token))
    }
}

/// The default analyzer: splits on every non-alphanumeric character.
pub struct SimpleTokenizer {}

impl SimpleTokenizer {
    pub fn new() -> (t: SimpleTokenizer) {
        SimpleTokenizer {  }
    }

    /// Starts a token stream over `text`.
    pub fn tokenize(&self, text: &str) -> (ts: TokenStream)
        ensures
            ts.wf(),
            ts.remaining() == text@,
            ts.toks() == tokens_of(text@),
    {
        let chars = str_to_chars(text);
        let ts = TokenStream { chars, pos: 0 };
        proof {
            assert(ts.remaining() =~= text@);
        }
        ts
    }
}

} // verus!
