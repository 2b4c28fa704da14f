//! The query language: tokens, the tokenizer, the predicate parser and the
//! search that puts them together.

use crate::database::Entry;
use crate::date::{calendar_valid, Date};
use crate::evaluate::{evaluate, is_stable_sort_of, passing};
use crate::text::{
    chars_of, find_char, first_index, is_ascii_space, is_space, is_word, joined,
    law_words_of_joined, lemma_word_len_bound, lemma_word_len_is, number_of, parse_number,
    range_is, word_len, words,
};
use vstd::prelude::*;
use vstd::string::{StrSliceExecFns, StringExecFns};

verus! {

/// One lexical unit of a query.
#[derive(Debug, PartialEq)]
pub enum SearchToken {
    Boolean(bool),
    String(String),
    Date(Date),
    Favorite,
    Before,
    During,
    After,
    Contains,
    InTitle,
    StartsWith,
    ID,
}

/// The mathematical value of a token: text is a sequence of characters.
pub enum TokenView {
    Boolean(bool),
    String(Seq<char>),
    Date(Date),
    Favorite,
    Before,
    During,
    After,
    Contains,
    InTitle,
    StartsWith,
    ID,
}

impl View for SearchToken {
    type V = TokenView;

    open spec fn view(&self) -> TokenView {
        match *self {
            SearchToken::Boolean(b) => TokenView::Boolean(b),
            SearchToken::String(s) => TokenView::String(s@),
            SearchToken::Date(d) => TokenView::Date(d),
            SearchToken::Favorite => TokenView::Favorite,
            SearchToken::Before => TokenView::Before,
            SearchToken::During => TokenView::During,
            SearchToken::After => TokenView::After,
            SearchToken::Contains => TokenView::Contains,
            SearchToken::InTitle => TokenView::InTitle,
            SearchToken::StartsWith => TokenView::StartsWith,
            SearchToken::ID => TokenView::ID,
        }
    }
}

impl Clone for SearchToken {
    fn clone(&self) -> (r: SearchToken)
        ensures
            r@ == self@,
    {
        match self {
            SearchToken::Boolean(b) => SearchToken::Boolean(*b),
            SearchToken::String(s) => SearchToken::String(s.clone()),
            SearchToken::Date(d) => SearchToken::Date(*d),
            SearchToken::Favorite => SearchToken::Favorite,
            SearchToken::Before => SearchToken::Before,
            SearchToken::During => SearchToken::During,
            SearchToken::After => SearchToken::After,
            SearchToken::Contains => SearchToken::Contains,
            SearchToken::InTitle => SearchToken::InTitle,
            SearchToken::StartsWith => SearchToken::StartsWith,
            SearchToken::ID => SearchToken::ID,
        }
    }
}

/// A token as it travels through the stream.
#[derive(Debug, PartialEq)]
pub struct Token {
    pub content: SearchToken,
}

impl View for Token {
    type V = TokenView;

    open spec fn view(&self) -> TokenView {
        self.content@
    }
}

impl Clone for Token {
    fn clone(&self) -> (r: Token)
        ensures
            r@ == self@,
    {
        Token { content: self.content.clone() }
    }
}

/// The values of a run of tokens.
pub open spec fn token_views(tokens: Seq<Token>) -> Seq<TokenView> {
    Seq::new(tokens.len(), |i: int| tokens[i]@)
}

/// The values of a run of predicates: operator first, operand second.
pub open spec fn pair_views(pairs: Seq<(Token, Token)>) -> Seq<(TokenView, TokenView)> {
    Seq::new(pairs.len(), |i: int| (pairs[i].0@, pairs[i].1@))
}

/// A sequence of tokens with a cursor that only moves forward.
#[derive(Debug)]
pub struct TokenStream {
    pub tokens: Vec<Token>,
    index: usize,
}

impl TokenStream {
    /// How many tokens have been consumed.
    pub closed spec fn cursor(&self) -> nat {
        self.index as nat
    }

    /// Every token of the stream, consumed or not.
    pub closed spec fn all(&self) -> Seq<Token> {
        self.tokens@
    }

    /// The values of the tokens not yet consumed.
    pub open spec fn pending(&self) -> Seq<TokenView> {
        if self.cursor() <= self.all().len() {
            token_views(self.all()).skip(self.cursor() as int)
        } else {
            Seq::empty()
        }
    }

    /// A stream positioned before the first of `tokens`.
    pub fn new(tokens: Vec<Token>) -> (r: TokenStream)
        ensures
            r.all() == tokens@,
            r.cursor() == 0,
    {
        TokenStream { tokens, index: 0 }
    }

    /// The token under the cursor, if any; the cursor stays.
    pub fn peek(&self) -> (r: Option<Token>)
        ensures
            match r {
                Some(t) => self.pending().len() > 0 && t@ == self.pending()[0],
                None => self.pending().len() == 0,
            },
    {
        if self.index < self.tokens.len() {
            Some(self.tokens[self.index].clone())
        } else {
            None
        }
    }

    /// The token under the cursor, if any; the cursor moves past it.
    pub fn consume(&mut self) -> (r: Option<Token>)
        ensures
            final(self).all() == old(self).all(),
            match r {
                Some(t) => old(self).pending().len() > 0 && t@ == old(self).pending()[0]
                    && final(self).cursor() == old(self).cursor() + 1 && final(self).pending()
                    == old(self).pending().skip(1),
                None => old(self).pending().len() == 0 && final(self).cursor() == old(self).cursor(),
            },
    {
        let token = self.peek();
        if self.index < self.tokens.len() {
            self.index += 1;
        }
        proof {
            if token is Some {
                assert(self.pending() =~= old(self).pending().skip(1));
            }
        }
        token
    }
}

/// The text a stray boolean is searched as.
pub open spec fn bool_text(b: bool) -> Seq<char> {
    if b {
        "true"@
    } else {
        "false"@
    }
}

/// Whether `operand` is of the variant that the operator `op` expects.
pub open spec fn accepts(op: TokenView, operand: TokenView) -> bool {
    match op {
        TokenView::Favorite => operand is Boolean,
        TokenView::Before | TokenView::During | TokenView::After => operand is Date,
        TokenView::Contains => operand is String,
        TokenView::StartsWith | TokenView::ID => true,
        _ => false,
    }
}

/// Whether `t` is a keyword marker that takes the following token as operand.
pub open spec fn takes_operand(t: TokenView) -> bool {
    t is Favorite || t is Before || t is During || t is After || t is Contains || t is StartsWith
        || t is ID
}

/// The predicates that a left-to-right pass over `t` emits.
///
/// Text and the bare title marker become a title filter on themselves; a
/// stray boolean becomes a body search for its spelling; a stray date is
/// dropped; a keyword takes the next token, emits the pair when the operand
/// fits, and ends the pass when there is no next token.
pub open spec fn parse_spec(t: Seq<TokenView>) -> Seq<(TokenView, TokenView)>
    decreases t.len(),
{
    if t.len() == 0 {
        Seq::empty()
    } else if takes_operand(t[0]) {
        if t.len() == 1 {
            Seq::empty()
        } else if accepts(t[0], t[1]) {
            seq![(t[0], t[1])] + parse_spec(t.skip(2))
        } else {
            parse_spec(t.skip(2))
        }
    } else {
        match t[0] {
            TokenView::Boolean(b) => seq![(TokenView::Contains, TokenView::String(bool_text(b)))]
                + parse_spec(t.skip(1)),
            TokenView::Date(_) => parse_spec(t.skip(1)),
            _ => seq![(TokenView::InTitle, t[0])] + parse_spec(t.skip(1)),
        }
    }
}

/// Turns the pending tokens of the stream into predicates, consuming them.
///
/// The result is always `Some`: a malformed query yields fewer predicates,
/// never a failure.
pub fn parse_tokens(tokens: &mut TokenStream) -> (r: Option<Vec<(Token, Token)>>)
    ensures
        r is Some,
        pair_views(r->0@) == parse_spec(old(tokens).pending()),
        final(tokens).all() == old(tokens).all(),
        final(tokens).pending().len() == 0,
{
    let mut search: Vec<(Token, Token)> = Vec::new();
    let ghost start = tokens.pending();
    proof {
        assert(pair_views(search@) =~= Seq::empty());
    }
    loop
        invariant
            tokens.all() == old(tokens).all(),
            pair_views(search@) + parse_spec(tokens.pending()) == parse_spec(start),
            start == old(tokens).pending(),
        ensures
            pair_views(search@) == parse_spec(start),
            tokens.pending().len() == 0,
            tokens.all() == old(tokens).all(),
        decreases tokens.pending().len(),
    {
        let ghost before = tokens.pending();
        let ghost done = pair_views(search@);
        let curr = match tokens.consume() {
            Some(t) => t,
            None => {
                proof {
                    assert(pair_views(search@) + Seq::empty() =~= pair_views(search@));
                }
                break ;
            },
        };
        match curr.content {
            SearchToken::Favorite
            | SearchToken::Before
            | SearchToken::During
            | SearchToken::After
            | SearchToken::Contains
            | SearchToken::StartsWith
            | SearchToken::ID => {
                let next = match tokens.consume() {
                    Some(t) => t,
                    None => {
                        proof {
                            assert(before.len() == 1);
                            assert(done + Seq::empty() =~= done);
                        }
                        break ;
                    },
                };
                proof {
                    assert(tokens.pending() =~= before.skip(2));
                }
                if operand_fits(&curr.content, &next.content) {
                    search.push((curr, next));
                    proof {
                        assert(pair_views(search@) =~= done + seq![(before[0], before[1])]);
                        assert(pair_views(search@) + parse_spec(tokens.pending()) =~= done + (
                        seq![(before[0], before[1])] + parse_spec(before.skip(2))));
                    }
                }
            },
            SearchToken::Boolean(b) => {
                let text = if b {
                    String::from_str("true")
                } else {
                    String::from_str("false")
                };
                let operator = Token { content: SearchToken::Contains };
                let operand = Token { content: SearchToken::String(text) };
                search.push((operator, operand));
                proof {
                    let pair = (TokenView::Contains, TokenView::String(bool_text(b)));
                    assert(pair_views(search@) =~= done + seq![pair]);
                    assert(pair_views(search@) + parse_spec(tokens.pending()) =~= done + (
                    seq![pair] + parse_spec(before.skip(1))));
                }
            },
            SearchToken::Date(_) => {},
            SearchToken::String(_) | SearchToken::InTitle => {
                let in_title = Token { content: SearchToken::InTitle };
                search.push((in_title, curr));
                proof {
                    let pair = (TokenView::InTitle, before[0]);
                    assert(pair_views(search@) =~= done + seq![pair]);
                    assert(pair_views(search@) + parse_spec(tokens.pending()) =~= done + (
                    seq![pair] + parse_spec(before.skip(1))));
                }
            },
        }
    }
    Some(search)
}

/// Whether the operand is of the variant that the keyword expects.
pub fn operand_fits(op: &SearchToken, operand: &SearchToken) -> (r: bool)
    ensures
        r == accepts(op@, operand@),
{
    match op {
        SearchToken::Favorite => match operand {
            SearchToken::Boolean(_) => true,
            _ => false,
        },
        SearchToken::Before | SearchToken::During | SearchToken::After => match operand {
            SearchToken::Date(_) => true,
            _ => false,
        },
        SearchToken::Contains => match operand {
            SearchToken::String(_) => true,
            _ => false,
        },
        SearchToken::StartsWith | SearchToken::ID => true,
        _ => false,
    }
}

/// The three numbers that `w` splits into at `sep`: none unless `sep` occurs
/// exactly twice and each of the three pieces spells a 32-bit number.
pub open spec fn three_numbers(w: Seq<char>, sep: char) -> Option<(int, int, int)> {
    let p = first_index(w, sep);
    let rest = w.skip(p + 1);
    let q = first_index(rest, sep);
    let last = rest.skip(q + 1);
    if p >= w.len() || q >= rest.len() || first_index(last, sep) < last.len() {
        None
    } else {
        match (number_of(w.take(p)), number_of(rest.take(q)), number_of(last)) {
            (Some(a), Some(b), Some(c)) => Some((a, b, c)),
            _ => None,
        }
    }
}

/// The date that `w` spells as month, day, year under one of the separators
/// `-`, `/`, `.`; none if it splits under no separator or names no calendar day.
pub open spec fn date_of(w: Seq<char>) -> Option<Date> {
    let parts = if three_numbers(w, '.') is Some {
        three_numbers(w, '.')
    } else if three_numbers(w, '/') is Some {
        three_numbers(w, '/')
    } else {
        three_numbers(w, '-')
    };
    match parts {
        Some((month, day, year)) => if calendar_valid(year, month, day) {
            Some(Date { year: year as i32, month: month as u32, day: day as u32 })
        } else {
            None
        },
        None => None,
    }
}

/// The token that one whitespace-free chunk of a query stands for.
pub open spec fn classify(w: Seq<char>) -> TokenView {
    if w == "favorite:"@ {
        TokenView::Favorite
    } else if w == "before:"@ {
        TokenView::Before
    } else if w == "during:"@ {
        TokenView::During
    } else if w == "after:"@ {
        TokenView::After
    } else if w == "contains:"@ {
        TokenView::Contains
    } else if w == "startswith:"@ {
        TokenView::StartsWith
    } else if w == "id:"@ {
        TokenView::ID
    } else if w == "true"@ {
        TokenView::Boolean(true)
    } else if w == "false"@ {
        TokenView::Boolean(false)
    } else {
        match date_of(w) {
            Some(d) => TokenView::Date(d),
            None => TokenView::String(w),
        }
    }
}

/// The tokens of a query: its whitespace-separated chunks, each classified on
/// its own, in order.
pub open spec fn tokenize_spec(query: Seq<char>) -> Seq<TokenView> {
    words(query).map_values(|w: Seq<char>| classify(w))
}

/// Splits `chars[from..to]` at `sep` into three numbers.
pub fn split_three(chars: &Vec<char>, from: usize, to: usize, sep: char) -> (r: Option<
    (i32, i32, i32),
>)
    requires
        from <= to <= chars@.len(),
    ensures
        match r {
            Some((a, b, c)) => three_numbers(chars@.subrange(from as int, to as int), sep) == Some(
                (a as int, b as int, c as int),
            ),
            None => three_numbers(chars@.subrange(from as int, to as int), sep) is None,
        },
{
    let ghost w = chars@.subrange(from as int, to as int);
    let p = find_char(chars, from, to, sep);
    if p >= to - from {
        return None;
    }
    let second: usize = from + p + 1;
    let ghost rest = w.skip(p + 1);
    proof {
        assert(rest =~= chars@.subrange(second as int, to as int));
    }
    let q = find_char(chars, second, to, sep);
    if q >= to - second {
        return None;
    }
    let third: usize = second + q + 1;
    let ghost last = rest.skip(q + 1);
    proof {
        assert(last =~= chars@.subrange(third as int, to as int));
        assert(w.take(p as int) =~= chars@.subrange(from as int, from + p));
        assert(rest.take(q as int) =~= chars@.subrange(second as int, second + q));
    }
    let extra = find_char(chars, third, to, sep);
    if extra < to - third {
        return None;
    }
    let a = parse_number(chars, from, from + p);
    let b = parse_number(chars, second, second + q);
    let c = parse_number(chars, third, to);
    match (a, b, c) {
        (Some(a), Some(b), Some(c)) => Some((a, b, c)),
        _ => None,
    }
}

/// Reads `chars[from..to]` as a month-day-year date.
pub fn read_date(chars: &Vec<char>, from: usize, to: usize) -> (r: Option<Date>)
    requires
        from <= to <= chars@.len(),
    ensures
        r == date_of(chars@.subrange(from as int, to as int)),
{
    let by_dot = split_three(chars, from, to, '.');
    let parts = if by_dot.is_some() {
        by_dot
    } else {
        let by_slash = split_three(chars, from, to, '/');
        if by_slash.is_some() {
            by_slash
        } else {
            split_three(chars, from, to, '-')
        }
    };
    match parts {
        Some((month, day, year)) => Date::from_mdy(month, day, year),
        None => None,
    }
}

/// Classifies the chunk `chars[from..to]`, whose text is `word`.
pub fn classify_word(chars: &Vec<char>, from: usize, to: usize, word: &str) -> (r: SearchToken)
    requires
        from <= to <= chars@.len(),
        word@ == chars@.subrange(from as int, to as int),
    ensures
        r@ == classify(word@),
{
    if range_is(chars, from, to, "favorite:") {
        SearchToken::Favorite
    } else if range_is(chars, from, to, "before:") {
        SearchToken::Before
    } else if range_is(chars, from, to, "during:") {
        SearchToken::During
    } else if range_is(chars, from, to, "after:") {
        SearchToken::After
    } else if range_is(chars, from, to, "contains:") {
        SearchToken::Contains
    } else if range_is(chars, from, to, "startswith:") {
        SearchToken::StartsWith
    } else if range_is(chars, from, to, "id:") {
        SearchToken::ID
    } else if range_is(chars, from, to, "true") {
        SearchToken::Boolean(true)
    } else if range_is(chars, from, to, "false") {
        SearchToken::Boolean(false)
    } else {
        match read_date(chars, from, to) {
            Some(d) => SearchToken::Date(d),
            None => SearchToken::String(String::from_str(word)),
        }
    }
}

/// Splits a query at ASCII whitespace and classifies each chunk.
pub fn tokenize_search(query: String) -> (r: TokenStream)
    ensures
        r.pending() == tokenize_spec(query@),
        token_views(r.all()) == tokenize_spec(query@),
        r.cursor() == 0,
{
    let chars = chars_of(query.as_str());
    let n = chars.len();
    let mut tokens: Vec<Token> = Vec::new();
    let mut i: usize = 0;
    proof {
        assert(query@.skip(0) =~= query@);
        assert(token_views(tokens@) + tokenize_spec(query@) =~= tokenize_spec(query@));
    }
    while i < n
        invariant
            chars@ == query@,
            n == chars@.len(),
            0 <= i <= n,
            token_views(tokens@) + tokenize_spec(query@.skip(i as int)) == tokenize_spec(query@),
        decreases n - i,
    {
        let ghost tail = query@.skip(i as int);
        let ghost done = token_views(tokens@);
        if is_ascii_space(chars[i]) {
            proof {
                assert(tail[0] == chars@[i as int]);
                assert(tail.skip(1) =~= query@.skip(i + 1));
            }
            i += 1;
        } else {
            let mut j: usize = i + 1;
            while j < n && !is_ascii_space(chars[j])
                invariant
                    chars@ == query@,
                    n == chars@.len(),
                    i < j <= n,
                    forall|k: int| i <= k < j ==> !is_space(#[trigger] chars@[k]),
                decreases n - j,
            {
                j += 1;
            }
            let word = query.as_str().substring_char(i, j);
            let content = classify_word(&chars, i, j, word);
            proof {
                assert(tail[0] == chars@[i as int]);
                assert forall|k: int| 0 <= k < j - i implies !is_space(#[trigger] tail[k]) by {
                    assert(tail[k] == chars@[i + k]);
                }
                if j - i < tail.len() {
                    assert(tail[j - i] == chars@[j as int]);
                }
                lemma_word_len_is(tail, j - i);
                assert(tail.take(j - i) =~= word@);
                assert(tail.skip(j - i) =~= query@.skip(j as int));
                let f = |w: Seq<char>| classify(w);
                assert(tokenize_spec(tail) =~= seq![classify(word@)] + tokenize_spec(
                    query@.skip(j as int),
                )) by {
                    assert(words(tail) == seq![word@] + words(query@.skip(j as int)));
                    assert((seq![word@] + words(query@.skip(j as int))).map_values(f) =~= seq![
                        classify(word@),
                    ] + words(query@.skip(j as int)).map_values(f));
                }
            }
            tokens.push(Token { content });
            proof {
                assert(token_views(tokens@) =~= done + seq![classify(word@)]);
                assert(token_views(tokens@) + tokenize_spec(query@.skip(j as int)) =~= done + (
                seq![classify(word@)] + tokenize_spec(query@.skip(j as int))));
            }
            i = j;
        }
    }
    proof {
        assert(query@.skip(n as int) =~= Seq::<char>::empty());
        assert(tokenize_spec(query@.skip(n as int)) =~= Seq::empty());
        assert(token_views(tokens@) + Seq::empty() =~= token_views(tokens@));
    }
    let stream = TokenStream::new(tokens);
    proof {
        assert(stream.pending() =~= token_views(stream.all()));
    }
    stream
}

/// Filters the entries by the query and puts the result in ascending order
/// of creation time.
///
/// The query is split into tokens, the tokens are read as predicates, and an
/// entry stays when it passes every predicate.
pub fn search(entries: Vec<Entry>, query: String) -> (r: Vec<Entry>)
    ensures
        is_stable_sort_of(
            r@,
            entries@.filter(passing(parse_spec(tokenize_spec(query@)))),
        ),
{
    let mut tokens = tokenize_search(query);
    let predicates = match parse_tokens(&mut tokens) {
        Some(list) => list,
        None => Vec::new(),
    };
    evaluate(entries, &predicates)
}

/// The title filters for a run of plain words.
pub open spec fn title_filters(words: Seq<Seq<char>>) -> Seq<(TokenView, TokenView)> {
    words.map_values(|w: Seq<char>| (TokenView::InTitle, TokenView::String(w)))
}

/// The text tokens for a run of plain words.
pub open spec fn text_tokens(words: Seq<Seq<char>>) -> Seq<TokenView> {
    words.map_values(|w: Seq<char>| TokenView::String(w))
}

/// A query of plain words asks for each word in the title, in order.
pub proof fn law_words_are_title_filters(words: Seq<Seq<char>>)
    ensures
        parse_spec(text_tokens(words)) == title_filters(words),
    decreases words.len(),
{
    let t = text_tokens(words);
    if words.len() == 0 {
        assert(parse_spec(t) =~= title_filters(words));
    } else {
        law_words_are_title_filters(words.skip(1));
        assert(t.skip(1) =~= text_tokens(words.skip(1)));
        assert(title_filters(words) =~= seq![(TokenView::InTitle, t[0])] + title_filters(
            words.skip(1),
        ));
    }
}

/// A keyword left dangling at the end of a query of plain words adds
/// nothing and fails nothing: the words are parsed as without it.
pub proof fn law_dangling_keyword(words: Seq<Seq<char>>, keyword: TokenView)
    requires
        takes_operand(keyword),
    ensures
        parse_spec(text_tokens(words).push(keyword)) == title_filters(words),
    decreases words.len(),
{
    let t = text_tokens(words).push(keyword);
    if words.len() == 0 {
        assert(t =~= seq![keyword]);
        assert(parse_spec(t) =~= title_filters(words));
    } else {
        law_dangling_keyword(words.skip(1), keyword);
        assert(t.skip(1) =~= text_tokens(words.skip(1)).push(keyword));
        assert(t[0] == TokenView::String(words[0]));
        assert(title_filters(words) =~= seq![(TokenView::InTitle, t[0])] + title_filters(
            words.skip(1),
        ));
    }
}

/// A chunk becomes a date only when it names a day that exists: a month
/// from 1 to 12 and a day that the month has in that year.
pub proof fn law_date_tokens_exist(chunk: Seq<char>)
    ensures
        classify(chunk) matches TokenView::Date(d) ==> d.wf(),
{
}

/// A query made of chunks with single spaces between them has one token for
/// each chunk, in order, each classified on its own.
pub proof fn law_tokens_of_chunks(chunks: Seq<Seq<char>>)
    requires
        forall|i: int| 0 <= i < chunks.len() ==> is_word(#[trigger] chunks[i]),
    ensures
        tokenize_spec(joined(chunks)) == chunks.map_values(|w: Seq<char>| classify(w)),
{
    law_words_of_joined(chunks);
}

} // verus!
