//! The query front end: a grammar-driven compiler from a textual query to a
//! term-set query bound to schema fields.
//!
//! The grammar, over the trimmed input: a query is literals separated by
//! whitespace; a literal is `field:value` (field a letter run, tried first)
//! or a bare value; a value is a word (alphanumeric run) or a quoted phrase.
//! The parse is deterministic, so the grammar is itself the specification:
//! `parse_query_language` below says exactly which inputs parse and to what.

use vstd::prelude::*;
use vstd::string::StrSliceExecFns;

use crate::analyzer::{tokens_of, SimpleTokenizer};
use crate::chars::{
    alphanumeric_char, alphabetic_char, chars_to_string, is_alphanumeric_char, is_alphabetic_char,
    is_whitespace_char, str_to_chars, whitespace_char,
};
use crate::schema::{field_lookup, Field, FieldEntryModel, Schema};
use crate::term::{text_term, Term, TermModel};
use crate::writer::token_terms;

verus! {

/// One parsed query literal.
#[derive(Clone, PartialEq, Eq, Debug)]
pub enum Literal {
    WithField(String, String),
    DefaultField(String),
}

/// Mathematical model of a `Literal`.
pub enum LiteralModel {
    WithField(Seq<char>, Seq<char>),
    DefaultField(Seq<char>),
}

impl View for Literal {
    type V = LiteralModel;

    open spec fn view(&self) -> LiteralModel {
        match self {
            Literal::WithField(f, v) => LiteralModel::WithField(f@, v@),
            Literal::DefaultField(v) => LiteralModel::DefaultField(v@),
        }
    }
}

/// Why a query failed to compile.
#[derive(Clone, PartialEq, Eq, Debug)]
pub enum ParsingError {
    SyntaxError,
    FieldDoesNotExist(String),
}

/// Mathematical model of a `ParsingError`.
pub enum ParsingErrorModel {
    SyntaxError,
    FieldDoesNotExist(Seq<char>),
}

impl View for ParsingError {
    type V = ParsingErrorModel;

    open spec fn view(&self) -> ParsingErrorModel {
        match self {
            ParsingError::SyntaxError => ParsingErrorModel::SyntaxError,
            ParsingError::FieldDoesNotExist(n) => ParsingErrorModel::FieldDoesNotExist(n@),
        }
    }
}

/// End of the alphanumeric run starting at `i`.
pub open spec fn alnum_run(s: Seq<char>, i: int) -> int
    decreases s.len() - i,
{
    if i < 0 || i >= s.len() || !alphanumeric_char(s[i]) {
        i
    } else {
        alnum_run(s, i + 1)
    }
}

/// End of the alphabetic run starting at `i`.
pub open spec fn letter_run(s: Seq<char>, i: int) -> int
    decreases s.len() - i,
{
    if i < 0 || i >= s.len() || !alphabetic_char(s[i]) {
        i
    } else {
        letter_run(s, i + 1)
    }
}

/// End of the whitespace run starting at `i`.
pub open spec fn ws_run(s: Seq<char>, i: int) -> int
    decreases s.len() - i,
{
    if i < 0 || i >= s.len() || !whitespace_char(s[i]) {
        i
    } else {
        ws_run(s, i + 1)
    }
}

/// End of the quote-free run starting at `i`.
pub open spec fn quote_run(s: Seq<char>, i: int) -> int
    decreases s.len() - i,
{
    if i < 0 || i >= s.len() || s[i] == '"' {
        i
    } else {
        quote_run(s, i + 1)
    }
}

/// A term value at `i`: a quoted, nonempty, closed phrase when a quote
/// opens there, else a nonempty word.  Yields the value and the index just
/// past it.
pub open spec fn parse_term_val(s: Seq<char>, i: int) -> Option<(Seq<char>, int)> {
    if 0 <= i < s.len() && s[i] == '"' {
        let j = quote_run(s, i + 1);
        if j > i + 1 && j < s.len() {
            Some((s.subrange(i + 1, j), j + 1))
        } else {
            None
        }
    } else {
        let j = alnum_run(s, i);
        if j > i {
            Some((s.subrange(i, j), j))
        } else {
            None
        }
    }
}

/// A literal at `i`: `field:value` when a nonempty letter run followed by a
/// colon and a value stands there, else a bare value for the default
/// fields.
pub open spec fn parse_literal(s: Seq<char>, i: int) -> Option<(LiteralModel, int)> {
    let j = letter_run(s, i);
    if j > i && j < s.len() && s[j] == ':' && parse_term_val(s, j + 1) is Some {
        let (v, e) = parse_term_val(s, j + 1)->Some_0;
        Some((LiteralModel::WithField(s.subrange(i, j), v), e))
    } else {
        match parse_term_val(s, i) {
            Some((v, e)) => Some((LiteralModel::DefaultField(v), e)),
            None => None,
        }
    }
}

/// The literals from `i` to the end of the input: one literal, then, unless
/// the input ends, optional whitespace and further literals.  Trailing
/// whitespace, or anything no literal starts, refuses the whole input.
pub open spec fn parse_literals(s: Seq<char>, i: int) -> Option<Seq<LiteralModel>>
    decreases s.len() - i,
{
    match parse_literal(s, i) {
        None => None,
        Some((l, e)) => if e >= s.len() {
            Some(seq![l])
        } else {
            let k = ws_run(s, e);
            if k >= s.len() || k <= i {
                None
            } else {
                match parse_literals(s, k) {
                    None => None,
                    Some(rest) => Some(seq![l] + rest),
                }
            }
        },
    }
}

/// The whole grammar: the empty input is the empty query; anything else
/// must be literals covering the input exactly.
pub open spec fn parse_query_language(s: Seq<char>) -> Option<Seq<LiteralModel>> {
    if s.len() == 0 {
        Some(Seq::empty())
    } else {
        parse_literals(s, 0)
    }
}

/// Start of the trailing-whitespace run ending at `i`.
pub open spec fn ws_run_rev(s: Seq<char>, i: int) -> int
    decreases i,
{
    if i <= 0 || i > s.len() || !whitespace_char(s[i - 1]) {
        i
    } else {
        ws_run_rev(s, i - 1)
    }
}

/// The input without leading and trailing whitespace.
pub open spec fn trim(s: Seq<char>) -> Seq<char> {
    let a = ws_run(s, 0);
    let b = ws_run_rev(s, s.len() as int);
    if a >= b {
        Seq::empty()
    } else {
        s.subrange(a, b)
    }
}

/// End of the alphanumeric run starting at `i`, computed.
fn alnum_run_exec(chars: &Vec<char>, i: usize) -> (r: usize)
    requires
        i <= chars@.len(),
    ensures
        r == alnum_run(chars@, i as int),
        i <= r <= chars@.len(),
{
    let n = chars.len();
    let mut j = i;
    while j < n && is_alphanumeric_char(chars[j])
        invariant
            i <= j <= n,
            n == chars@.len(),
            alnum_run(chars@, i as int) == alnum_run(chars@, j as int),
        decreases n - j,
    {
        j = j + 1;
    }
    j
}

/// End of the alphabetic run starting at `i`, computed.
fn letter_run_exec(chars: &Vec<char>, i: usize) -> (r: usize)
    requires
        i <= chars@.len(),
    ensures
        r == letter_run(chars@, i as int),
        i <= r <= chars@.len(),
{
    let n = chars.len();
    let mut j = i;
    while j < n && is_alphabetic_char(chars[j])
        invariant
            i <= j <= n,
            n == chars@.len(),
            letter_run(chars@, i as int) == letter_run(chars@, j as int),
        decreases n - j,
    {
        j = j + 1;
    }
    j
}

/// End of the whitespace run starting at `i`, computed.
fn ws_run_exec(chars: &Vec<char>, i: usize) -> (r: usize)
    requires
        i <= chars@.len(),
    ensures
        r == ws_run(chars@, i as int),
        i <= r <= chars@.len(),
{
    let n = chars.len();
    let mut j = i;
    while j < n && is_whitespace_char(chars[j])
        invariant
            i <= j <= n,
            n == chars@.len(),
            ws_run(chars@, i as int) == ws_run(chars@, j as int),
        decreases n - j,
    {
        j = j + 1;
    }
    j
}

/// End of the quote-free run starting at `i`, computed.
fn quote_run_exec(chars: &Vec<char>, i: usize) -> (r: usize)
    requires
        i <= chars@.len(),
    ensures
        r == quote_run(chars@, i as int),
        i <= r <= chars@.len(),
{
    let n = chars.len();
    let mut j = i;
    while j < n && chars[j] != '"'
        invariant
            i <= j <= n,
            n == chars@.len(),
            quote_run(chars@, i as int) == quote_run(chars@, j as int),
        decreases n - j,
    {
        j = j + 1;
    }
    j
}

/// The characters of `v` from `a` to `b`.
fn sub_chars(v: &Vec<char>, a: usize, b: usize) -> (r: Vec<char>)
    requires
        a <= b <= v@.len(),
    ensures
        r@ == v@.subrange(a as int, b as int),
{
    let mut r: Vec<char> = Vec::new();
    let mut i = a;
    proof {
        assert(r@ =~= v@.subrange(a as int, a as int));
    }
    while i < b
        invariant
            a <= i <= b <= v@.len(),
            r@ == v@.subrange(a as int, i as int),
        decreases b - i,
    {
        r.push(v[i]);
        i = i + 1;
        proof {
            assert(r@ =~= v@.subrange(a as int, i as int));
        }
    }
    r
}

/// The string of the characters of `v` from `a` to `b`.
fn sub_string(v: &Vec<char>, a: usize, b: usize) -> (r: String)
    requires
        a <= b <= v@.len(),
    ensures
        r@ == v@.subrange(a as int, b as int),
{
    let sub = sub_chars(v, a, b);
    chars_to_string(&sub)
}

/// A term value at `i`, computed: the value and the index just past it.
fn parse_term_val_exec(chars: &Vec<char>, i: usize) -> (r: Option<(String, usize)>)
    requires
        i <= chars@.len(),
    ensures
        match r {
            Some((v, e)) => parse_term_val(chars@, i as int) == Some((v@, e as int)) && i < e
                <= chars@.len(),
            None => parse_term_val(chars@, i as int) is None,
        },
{
    let n = chars.len();
    if i < n && chars[i] == '"' {
        let j = quote_run_exec(chars, i + 1);
        if j > i + 1 && j < n {
            Some((sub_string(chars, i + 1, j), j + 1))
        } else {
            None
        }
    } else {
        let j = alnum_run_exec(chars, i);
        if j > i {
            Some((sub_string(chars, i, j), j))
        } else {
            None
        }
    }
}

/// A literal at `i`, computed: the literal and the index just past it.
fn parse_literal_exec(chars: &Vec<char>, i: usize) -> (r: Option<(Literal, usize)>)
    requires
        i <= chars@.len(),
    ensures
        match r {
            Some((l, e)) => parse_literal(chars@, i as int) == Some((l@, e as int)) && i < e
                <= chars@.len(),
            None => parse_literal(chars@, i as int) is None,
        },
{
    let n = chars.len();
    let j = letter_run_exec(chars, i);
    if j > i && j < n && chars[j] == ':' {
        match parse_term_val_exec(chars, j + 1) {
            Some((v, e)) => {
                let name = sub_string(chars, i, j);
                return Some((Literal::WithField(name, v), e));
            },
            None => {},
        }
    }
    match parse_term_val_exec(chars, i) {
        Some((v, e)) => Some((Literal::DefaultField(v), e)),
        None => None,
    }
}

/// The views of a run of literals.
pub open spec fn lits_view(v: Seq<Literal>) -> Seq<LiteralModel> {
    v.map_values(|l: Literal| l@)
}

/// The whole grammar over a character buffer, computed.
fn parse_chars(chars: &Vec<char>) -> (r: Option<Vec<Literal>>)
    ensures
        match r {
            Some(lits) => parse_query_language(chars@) == Some(lits_view(lits@)),
            None => parse_query_language(chars@) is None,
        },
{
    let n = chars.len();
    let mut lits: Vec<Literal> = Vec::new();
    if n == 0 {
        proof {
            assert(lits_view(lits@) =~= Seq::<LiteralModel>::empty());
        }
        return Some(lits);
    }
    let mut i: usize = 0;
    loop
        invariant
            0 <= i < n,
            n == chars@.len(),
            match parse_literals(chars@, i as int) {
                Some(rest) => parse_literals(chars@, 0) == Some(lits_view(lits@) + rest),
                None => parse_literals(chars@, 0) is None,
            },
        decreases n - i,
    {
        match parse_literal_exec(chars, i) {
            None => {
                return None;
            },
            Some((lit, e)) => {
                let ghost litv = lit@;
                let ghost pre = lits_view(lits@);
                lits.push(lit);
                proof {
                    assert(lits_view(lits@) =~= pre.push(litv));
                }
                if e >= n {
                    proof {
                        assert(parse_literals(chars@, i as int) == Some(seq![litv]));
                        assert(pre + seq![litv] =~= lits_view(lits@));
                    }
                    return Some(lits);
                }
                let k = ws_run_exec(chars, e);
                if k >= n {
                    proof {
                        assert(parse_literals(chars@, i as int) is None);
                    }
                    return None;
                }
                proof {
                    assert(k > i);
                    match parse_literals(chars@, k as int) {
                        Some(rest) => {
                            assert(parse_literals(chars@, i as int) == Some(seq![litv] + rest));
                            assert(pre + (seq![litv] + rest) =~= lits_view(lits@) + rest);
                        },
                        None => {
                            assert(parse_literals(chars@, i as int) is None);
                        },
                    }
                }
                i = k;
            },
        }
    }
}

/// The grammar alone, over a raw query string: the literals it parses to,
/// or a syntax error.
pub fn query_language(input: &str) -> (r: Result<Vec<Literal>, ParsingError>)
    ensures
        match r {
            Ok(lits) => parse_query_language(input@) == Some(lits_view(lits@)),
            Err(e) => parse_query_language(input@) is None && e@ is SyntaxError,
        },
{
    let chars = str_to_chars(input);
    match parse_chars(&chars) {
        Some(lits) => Ok(lits),
        None => Err(ParsingError::SyntaxError),
    }
}

/// A query over a fixed set of terms.
#[derive(Clone, PartialEq, Eq, Debug)]
pub struct MultiTermQuery {
    terms: Vec<Term>,
}

impl View for MultiTermQuery {
    type V = Seq<TermModel>;

    closed spec fn view(&self) -> Seq<TermModel> {
        self.terms@.map_values(|t: Term| t@)
    }
}

impl MultiTermQuery {
    pub fn new(terms: Vec<Term>) -> (q: MultiTermQuery)
        ensures
            q@ == terms@.map_values(|t: Term| t@),
    {
        MultiTermQuery { terms }
    }

    pub fn num_terms(&self) -> (n: usize)
        ensures
            n == self@.len(),
    {
        self.terms.len()
    }

    /// The `i`-th term of the query.
    pub fn term_at(&self, i: usize) -> (t: &Term)
        requires
            i < self@.len(),
        ensures
            t@ == self@[i as int],
    {
        &self.terms[i]
    }
}

/// The compiled form of a user query; a tagged variant so that new query
/// kinds can extend it.
#[derive(Clone, PartialEq, Eq, Debug)]
pub enum StandardQuery {
    MultiTerm(MultiTermQuery),
}

impl StandardQuery {
    pub fn num_terms(&self) -> (n: usize)
        ensures
            n == match self {
                StandardQuery::MultiTerm(q) => q@.len(),
            },
    {
        match self {
            StandardQuery::MultiTerm(q) => q.num_terms(),
        }
    }
}

/// The terms of one token run: tokenizing a text value for one field.
pub fn compute_terms(field: Field, text: &str) -> (r: Vec<Term>)
    ensures
        r@.map_values(|t: Term| t@) == token_terms(field.ord, tokens_of(text@)),
{
    let tokenizer = SimpleTokenizer::new();
    let mut tokens = tokenizer.tokenize(text);
    let ghost full = tokens_of(text@);
    let ghost mut k: int = 0;
    let mut out: Vec<Term> = Vec::new();
    let mut done = false;
    proof {
        assert(out@.map_values(|t: Term| t@) =~= token_terms(field.ord, full.take(0)));
    }
    while !done
        invariant
            0 <= k <= full.len(),
            tokens.wf(),
            !done ==> tokens.toks() == full.skip(k),
            done ==> k == full.len(),
            out@.map_values(|t: Term| t@) == token_terms(field.ord, full.take(k)),
        decreases full.len() - k + (if done {
            0int
        } else {
            1int
        }),
    {
        match tokens.next() {
            Some(tok) => {
                proof {
                    assert(full.skip(k)[0] == full[k]);
                }
                let term = Term::from_field_text(field, tok.as_str());
                let ghost pre = out@.map_values(|t: Term| t@);
                out.push(term);
                proof {
                    assert(out@.map_values(|t: Term| t@) =~= pre.push(text_term(field.ord, full[k])));
                    k = k + 1;
                    assert(full.skip(k - 1).drop_first() =~= full.skip(k));
                    assert(full.take(k).drop_last() =~= full.take(k - 1));
                    assert(token_terms(field.ord, full.take(k)) =~= token_terms(
                        field.ord,
                        full.take(k - 1),
                    ).push(text_term(field.ord, full[k - 1])));
                }
            },
            None => {
                done = true;
            },
        }
    }
    proof {
        assert(full.take(full.len() as int) =~= full);
    }
    out
}

/// The terms a literal expands to against a schema: tokenized terms of the
/// named field, or of every default field; an unknown field name is the
/// error, carrying the name.
pub open spec fn literal_terms(
    l: LiteralModel,
    s: Seq<FieldEntryModel>,
    defaults: Seq<usize>,
) -> Result<Seq<TermModel>, Seq<char>> {
    match l {
        LiteralModel::DefaultField(text) => Ok(default_terms(defaults, text)),
        LiteralModel::WithField(name, text) => match field_lookup(s, name) {
            Some(ord) => Ok(token_terms(ord as usize, tokens_of(text))),
            None => Err(name),
        },
    }
}

/// The tokenized terms of `text` for every default field, in order.
pub open spec fn default_terms(defaults: Seq<usize>, text: Seq<char>) -> Seq<TermModel>
    decreases defaults.len(),
{
    if defaults.len() == 0 {
        Seq::empty()
    } else {
        default_terms(defaults.drop_last(), text) + token_terms(
            defaults.last(),
            tokens_of(text),
        )
    }
}

/// The terms of a whole run of literals; the first unknown field name is
/// the error.
pub open spec fn all_literal_terms(
    lits: Seq<LiteralModel>,
    s: Seq<FieldEntryModel>,
    defaults: Seq<usize>,
) -> Result<Seq<TermModel>, ParsingErrorModel>
    decreases lits.len(),
{
    if lits.len() == 0 {
        Ok(Seq::empty())
    } else {
        match literal_terms(lits[0], s, defaults) {
            Err(name) => Err(ParsingErrorModel::FieldDoesNotExist(name)),
            Ok(ts) => match all_literal_terms(lits.drop_first(), s, defaults) {
                Err(e) => Err(e),
                Ok(rest) => Ok(ts + rest),
            },
        }
    }
}

/// What a query string compiles to against a schema and default fields:
/// the grammar decides syntax, then every literal is expanded to terms.
pub open spec fn spec_parse_query(
    q: Seq<char>,
    s: Seq<FieldEntryModel>,
    defaults: Seq<usize>,
) -> Result<Seq<TermModel>, ParsingErrorModel> {
    match parse_query_language(trim(q)) {
        None => Err(ParsingErrorModel::SyntaxError),
        Some(lits) => all_literal_terms(lits, s, defaults),
    }
}

/// Compiles textual queries against one schema and a set of default
/// fields.
pub struct QueryParser {
    schema: Schema,
    default_fields: Vec<Field>,
}

impl QueryParser {
    /// The schema queries are compiled against.
    pub closed spec fn schema_model(self) -> Seq<FieldEntryModel> {
        self.schema@
    }

    /// The fields a bare literal expands over.
    pub closed spec fn defaults_model(self) -> Seq<usize> {
        self.default_fields@.map_values(|f: Field| f.ord)
    }

    pub fn new(schema: Schema, default_fields: Vec<Field>) -> (p: QueryParser)
        ensures
            p.schema_model() == schema@,
            p.defaults_model() == default_fields@.map_values(|f: Field| f.ord),
    {
        QueryParser { schema, default_fields }
    }

    /// Expands one literal to its terms; an unknown field name is refused,
    /// carrying the name.
    pub fn transform_literal(&self, literal: &Literal) -> (r: Result<Vec<Term>, ParsingError>)
        ensures
            match r {
                Ok(ts) => literal_terms(literal@, self.schema_model(), self.defaults_model())
                    == Ok::<Seq<TermModel>, Seq<char>>(ts@.map_values(|t: Term| t@)),
                Err(e) => literal_terms(literal@, self.schema_model(), self.defaults_model())
                    matches Err(name) && e@ == ParsingErrorModel::FieldDoesNotExist(name),
            },
    {
        match literal {
            Literal::DefaultField(text) => {
                let nd = self.default_fields.len();
                let mut out: Vec<Term> = Vec::new();
                let mut d: usize = 0;
                proof {
                    assert(out@.map_values(|t: Term| t@) =~= default_terms(
                        self.defaults_model().take(0),
                        text@,
                    ));
                }
                while d < nd
                    invariant
                        nd == self.default_fields@.len(),
                        d <= nd,
                        out@.map_values(|t: Term| t@) == default_terms(
                            self.defaults_model().take(d as int),
                            text@,
                        ),
                    decreases nd - d,
                {
                    let field = self.default_fields[d];
                    let mut ts = compute_terms(field, text.as_str());
                    let ghost pre = out@.map_values(|t: Term| t@);
                    let ghost tsv = ts@.map_values(|t: Term| t@);
                    let tl = ts.len();
                    let mut x: usize = 0;
                    while x < tl
                        invariant
                            tl == ts@.len(),
                            x <= tl,
                            tsv == ts@.map_values(|t: Term| t@),
                            out@.map_values(|t: Term| t@) == pre + tsv.take(x as int),
                        decreases tl - x,
                    {
                        let ghost mid = out@.map_values(|t: Term| t@);
                        let t = ts[x].duplicate();
                        out.push(t);
                        x = x + 1;
                        proof {
                            assert(out@.map_values(|t2: Term| t2@) =~= mid.push(tsv[x - 1]));
                            assert(mid.push(tsv[x - 1]) =~= pre + tsv.take(x as int));
                        }
                    }
                    d = d + 1;
                    proof {
                        assert(tsv.take(tl as int) =~= tsv);
                        let dm = self.defaults_model().take(d as int);
                        assert(dm.drop_last() =~= self.defaults_model().take(d - 1));
                        assert(dm.last() == self.defaults_model()[d - 1]);
                        assert(self.defaults_model()[d - 1] == field.ord);
                        assert(out@.map_values(|t: Term| t@) =~= default_terms(
                            self.defaults_model().take(d as int),
                            text@,
                        ));
                    }
                }
                proof {
                    assert(self.defaults_model().take(nd as int) =~= self.defaults_model());
                }
                Ok(out)
            },
            Literal::WithField(name, text) => {
                match self.schema.get_field(name.as_str()) {
                    Some(field) => {
                        let ts = compute_terms(field, text.as_str());
                        Ok(ts)
                    },
                    None => {
                        Err(ParsingError::FieldDoesNotExist(String::from_str(name.as_str())))
                    },
                }
            },
        }
    }

    /// Compiles a query string: trims it, parses it against the grammar,
    /// expands every literal, and returns the terms as one multi-term
    /// query.  A grammar mismatch is a syntax error; an unknown field name
    /// is refused by name.
    pub fn parse_query(&self, query: &str) -> (r: Result<StandardQuery, ParsingError>)
        ensures
            match r {
                Ok(q) => ({
                    &&& spec_parse_query(query@, self.schema_model(), self.defaults_model())
                        matches Ok(ts)
                    &&& q matches StandardQuery::MultiTerm(mt) && mt@ == ts
                }),
                Err(e) => spec_parse_query(query@, self.schema_model(), self.defaults_model())
                    == Err::<Seq<TermModel>, ParsingErrorModel>(e@),
            },
    {
        let chars = str_to_chars(query);
        let n = chars.len();
        let lo = ws_run_exec(&chars, 0);
        let mut hi = n;
        while hi > 0 && is_whitespace_char(chars[hi - 1])
            invariant
                hi <= n,
                n == chars@.len(),
                ws_run_rev(chars@, n as int) == ws_run_rev(chars@, hi as int),
            decreases hi,
        {
            hi = hi - 1;
        }
        proof {
            assert(ws_run_rev(chars@, hi as int) == hi as int);
        }
        let trimmed: Vec<char> = if lo >= hi {
            Vec::new()
        } else {
            sub_chars(&chars, lo, hi)
        };
        proof {
            assert(trimmed@ =~= trim(query@));
        }
        match parse_chars(&trimmed) {
            None => Err(ParsingError::SyntaxError),
            Some(lits) => {
                let ghost litsv = lits_view(lits@);
                let nl = lits.len();
                let mut terms: Vec<Term> = Vec::new();
                let mut li: usize = 0;
                proof {
                    assert(litsv.skip(0) =~= litsv);
                    assert(Seq::<TermModel>::empty() + all_literal_terms(
                        litsv,
                        self.schema_model(),
                        self.defaults_model(),
                    )->Ok_0 =~= all_literal_terms(
                        litsv,
                        self.schema_model(),
                        self.defaults_model(),
                    )->Ok_0);
                }
                while li < nl
                    invariant
                        nl == lits@.len(),
                        li <= nl,
                        litsv == lits_view(lits@),
                        parse_query_language(trim(query@)) == Some(litsv),
                        match all_literal_terms(
                            litsv.skip(li as int),
                            self.schema_model(),
                            self.defaults_model(),
                        ) {
                            Ok(rest) => all_literal_terms(
                                litsv,
                                self.schema_model(),
                                self.defaults_model(),
                            ) == Ok::<Seq<TermModel>, ParsingErrorModel>(
                                terms@.map_values(|t: Term| t@) + rest,
                            ),
                            Err(e) => all_literal_terms(
                                litsv,
                                self.schema_model(),
                                self.defaults_model(),
                            ) == Err::<Seq<TermModel>, ParsingErrorModel>(e),
                        },
                    decreases nl - li,
                {
                    proof {
                        assert(litsv.skip(li as int)[0] == litsv[li as int]);
                        assert(lits@[li as int]@ == litsv[li as int]);
                    }
                    match self.transform_literal(&lits[li]) {
                        Err(e) => {
                            proof {
                                assert(all_literal_terms(
                                    litsv.skip(li as int),
                                    self.schema_model(),
                                    self.defaults_model(),
                                ) == Err::<Seq<TermModel>, ParsingErrorModel>(e@));
                            }
                            return Err(e);
                        },
                        Ok(ts) => {
                            let ghost tsv = ts@.map_values(|t: Term| t@);
                            let ghost pre = terms@.map_values(|t: Term| t@);
                            let tl = ts.len();
                            let mut x: usize = 0;
                            while x < tl
                                invariant
                                    tl == ts@.len(),
                                    x <= tl,
                                    tsv == ts@.map_values(|t: Term| t@),
                                    terms@.map_values(|t: Term| t@) == pre + tsv.take(x as int),
                                decreases tl - x,
                            {
                                let ghost mid = terms@.map_values(|t: Term| t@);
                                let t = ts[x].duplicate();
                                terms.push(t);
                                x = x + 1;
                                proof {
                                    assert(terms@.map_values(|t2: Term| t2@) =~= mid.push(
                                        tsv[x - 1],
                                    ));
                                    assert(mid.push(tsv[x - 1]) =~= pre + tsv.take(x as int));
                                }
                            }
                            li = li + 1;
                            proof {
                                assert(tsv.take(tl as int) =~= tsv);
                                assert(litsv.skip(li - 1).drop_first() =~= litsv.skip(li as int));
                                match all_literal_terms(
                                    litsv.skip(li as int),
                                    self.schema_model(),
                                    self.defaults_model(),
                                ) {
                                    Ok(rest) => {
                                        assert((pre + tsv) + rest =~= pre + (tsv + rest));
                                    },
                                    Err(_) => {},
                                }
                            }
                        },
                    }
                }
                proof {
                    assert(litsv.skip(nl as int) =~= Seq::<LiteralModel>::empty());
                    assert(terms@.map_values(|t: Term| t@) + Seq::<TermModel>::empty()
                        =~= terms@.map_values(|t: Term| t@));
                }
                Ok(StandardQuery::MultiTerm(MultiTermQuery::new(terms)))
            },
        }
    }
}

/// Re-deriving a term from its own token text reproduces it: each token a
/// query or a document produces re-tokenizes to exactly itself, so pushing
/// the emitted terms back through the tokenizer yields the same terms.
pub proof fn lemma_terms_retokenize(field_ord: usize, text: Seq<char>, i: int)
    requires
        0 <= i < tokens_of(text).len(),
    ensures
        token_terms(field_ord, tokens_of(tokens_of(text)[i])) == seq![
            text_term(field_ord, tokens_of(text)[i]),
        ],
{
    crate::analyzer::lemma_retokenize(text, i);
    assert(token_terms(field_ord, seq![tokens_of(text)[i]]) =~= seq![
        text_term(field_ord, tokens_of(text)[i]),
    ]);
}

} // verus!
