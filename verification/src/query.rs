//! The query language of filters.
//!
//! A query is one or more conditions joined by `and`, such as
//! `service = "billing" and level >= warn`. Text that is no query is searched for in the raw
//! line.
use crate::filter::{
    all_accept, law_compositions, plain_value, some_accepts, FilterError, FilterExpr, FilterView,
};
use crate::model::{field_value, level_named, LogLevel, RowView, SourceId};
use crate::parser::{level_place, stands_from, stands_in};
use crate::text::{
    begins_with, chars_of, contains, contains_folded, decimal, is_white, is_whitespace, joined_by,
    lowercase, lowered, occurs_at, same_text, starts_with, trim, trimmed,
};
use crate::time::{
    chrono_reading, lemma_timestamp_has_its_parts, lemma_timestamp_is_its_parts, timestamp_at,
    timestamp_named, Timestamp,
};
use vstd::prelude::*;
use vstd::string::*;

verus! {

// ---------------------------------------------------------------------------
// Tokens
// ---------------------------------------------------------------------------

/// A piece of a query.
#[derive(Debug)]
pub enum Token {
    Word(String),
    Quoted(String),
    /// A quote that is never closed.
    Unclosed,
    Eq,
    NotEq,
    Gte,
    Gt,
    Lte,
    Lt,
    LParen,
    RParen,
    Comma,
}

/// A token as a value of mathematics.
pub ghost enum TokenView {
    Word(Seq<char>),
    Quoted(Seq<char>),
    Unclosed,
    Eq,
    NotEq,
    Gte,
    Gt,
    Lte,
    Lt,
    LParen,
    RParen,
    Comma,
}

impl View for Token {
    type V = TokenView;

    open spec fn view(&self) -> TokenView {
        match *self {
            Token::Word(text) => TokenView::Word(text@),
            Token::Quoted(text) => TokenView::Quoted(text@),
            Token::Unclosed => TokenView::Unclosed,
            Token::Eq => TokenView::Eq,
            Token::NotEq => TokenView::NotEq,
            Token::Gte => TokenView::Gte,
            Token::Gt => TokenView::Gt,
            Token::Lte => TokenView::Lte,
            Token::Lt => TokenView::Lt,
            Token::LParen => TokenView::LParen,
            Token::RParen => TokenView::RParen,
            Token::Comma => TokenView::Comma,
        }
    }
}

/// The tokens of a list.
pub open spec fn token_views(tokens: Seq<Token>) -> Seq<TokenView> {
    tokens.map_values(|token: Token| token@)
}

/// The character can stand in a word.
pub open spec fn is_word_char(c: char) -> bool {
    !is_white(c) && c != '"' && c != '(' && c != ')' && c != ',' && c != '=' && c != '<' && c != '>'
        && c != '!'
}

/// The end of the word that goes on at `at`.
pub open spec fn word_end(s: Seq<char>, at: int) -> int
    decreases s.len() - at,
{
    if 0 <= at < s.len() && is_word_char(s[at]) {
        word_end(s, at + 1)
    } else {
        at
    }
}

/// The index of the first quote at or after `at`, or the end.
pub open spec fn quote_end(s: Seq<char>, at: int) -> int
    decreases s.len() - at,
{
    if 0 <= at < s.len() && s[at] != '"' {
        quote_end(s, at + 1)
    } else {
        at
    }
}

/// The next character is an equals sign.
pub open spec fn equals_follows(s: Seq<char>, at: int) -> bool {
    at + 1 < s.len() && s[at + 1] == '='
}

/// The token that starts at `at`, and where it ends. There is none at whitespace.
pub open spec fn token_at(s: Seq<char>, at: int) -> (Option<TokenView>, int) {
    let c = s[at];
    if is_white(c) {
        (None, at + 1)
    } else if c == '(' {
        (Some(TokenView::LParen), at + 1)
    } else if c == ')' {
        (Some(TokenView::RParen), at + 1)
    } else if c == ',' {
        (Some(TokenView::Comma), at + 1)
    } else if c == '=' {
        (Some(TokenView::Eq), at + 1)
    } else if c == '!' {
        if equals_follows(s, at) {
            (Some(TokenView::NotEq), at + 2)
        } else {
            (Some(TokenView::Word(s.subrange(at, at + 1))), at + 1)
        }
    } else if c == '>' {
        if equals_follows(s, at) {
            (Some(TokenView::Gte), at + 2)
        } else {
            (Some(TokenView::Gt), at + 1)
        }
    } else if c == '<' {
        if equals_follows(s, at) {
            (Some(TokenView::Lte), at + 2)
        } else {
            (Some(TokenView::Lt), at + 1)
        }
    } else if c == '"' {
        let end = quote_end(s, at + 1);
        if end < s.len() {
            (Some(TokenView::Quoted(s.subrange(at + 1, end))), end + 1)
        } else {
            (Some(TokenView::Unclosed), s.len() as int)
        }
    } else {
        (Some(TokenView::Word(s.subrange(at, word_end(s, at)))), word_end(s, at))
    }
}

/// The tokens of `s` from `at` on.
pub open spec fn tokens_from(s: Seq<char>, at: int) -> Seq<TokenView>
    decreases s.len() - at,
{
    if at < 0 || at >= s.len() {
        Seq::empty()
    } else {
        let (token, end) = token_at(s, at);
        if !(at < end <= s.len()) {
            Seq::empty()
        } else {
            match token {
                Some(token) => seq![token] + tokens_from(s, end),
                None => tokens_from(s, end),
            }
        }
    }
}

/// A word ends at or behind its start and within the text.
proof fn lemma_word_end(s: Seq<char>, at: int)
    requires
        0 <= at <= s.len(),
    ensures
        at <= word_end(s, at) <= s.len(),
        at < s.len() && is_word_char(s[at]) ==> at < word_end(s, at),
    decreases s.len() - at,
{
    if at < s.len() && is_word_char(s[at]) {
        lemma_word_end(s, at + 1);
    }
}

/// A quote ends at or behind its start and within the text.
proof fn lemma_quote_end(s: Seq<char>, at: int)
    requires
        0 <= at <= s.len(),
    ensures
        at <= quote_end(s, at) <= s.len(),
    decreases s.len() - at,
{
    if at < s.len() && s[at] != '"' {
        lemma_quote_end(s, at + 1);
    }
}

/// A token ends behind its start and within the text.
proof fn lemma_token_end(s: Seq<char>, at: int)
    requires
        0 <= at < s.len(),
    ensures
        at < token_at(s, at).1 <= s.len(),
{
    lemma_word_end(s, at);
    lemma_quote_end(s, at + 1);
}

/// The characters from `from` up to `to` as a string.
fn slice_text(chars: &Vec<char>, from: usize, to: usize) -> (r: String)
    requires
        from <= to <= chars@.len(),
    ensures
        r@ == chars@.subrange(from as int, to as int),
{
    let mut out: String = String::new();
    let mut i: usize = from;
    assert(out@ =~= chars@.subrange(from as int, from as int));
    while i < to
        invariant
            from <= i <= to <= chars@.len(),
            out@ == chars@.subrange(from as int, i as int),
        decreases to - i,
    {
        out.push(chars[i]);
        i += 1;
        assert(out@ =~= chars@.subrange(from as int, i as int));
    }
    out
}

/// Whether the character can stand in a word.
fn word_char(c: char) -> (r: bool)
    ensures
        r == is_word_char(c),
{
    !is_whitespace(c) && c != '"' && c != '(' && c != ')' && c != ',' && c != '=' && c != '<' && c
        != '>' && c != '!'
}

/// The token that starts at `at`, and where it ends.
fn read_token(s: &Vec<char>, at: usize) -> (r: (Option<Token>, usize))
    requires
        at < s@.len(),
    ensures
        at < r.1 <= s@.len(),
        r.1 == token_at(s@, at as int).1,
        match r.0 {
            Some(token) => token_at(s@, at as int).0 == Some(token@),
            None => token_at(s@, at as int).0 is None,
        },
{
    proof {
        lemma_token_end(s@, at as int);
    }
    let c = s[at];
    let equals: bool = s.len() - at > 1 && s[at + 1] == '=';
    if is_whitespace(c) {
        (None, at + 1)
    } else if c == '(' {
        (Some(Token::LParen), at + 1)
    } else if c == ')' {
        (Some(Token::RParen), at + 1)
    } else if c == ',' {
        (Some(Token::Comma), at + 1)
    } else if c == '=' {
        (Some(Token::Eq), at + 1)
    } else if c == '!' {
        if equals {
            (Some(Token::NotEq), at + 2)
        } else {
            (Some(Token::Word(slice_text(s, at, at + 1))), at + 1)
        }
    } else if c == '>' {
        if equals {
            (Some(Token::Gte), at + 2)
        } else {
            (Some(Token::Gt), at + 1)
        }
    } else if c == '<' {
        if equals {
            (Some(Token::Lte), at + 2)
        } else {
            (Some(Token::Lt), at + 1)
        }
    } else if c == '"' {
        let mut end: usize = at + 1;
        while end < s.len() && s[end] != '"'
            invariant
                at + 1 <= end <= s@.len(),
                quote_end(s@, at + 1) == quote_end(s@, end as int),
            decreases s@.len() - end,
        {
            end += 1;
        }
        if end < s.len() {
            (Some(Token::Quoted(slice_text(s, at + 1, end))), end + 1)
        } else {
            (Some(Token::Unclosed), s.len())
        }
    } else {
        let mut end: usize = at;
        while end < s.len() && word_char(s[end])
            invariant
                at <= end <= s@.len(),
                word_end(s@, at as int) == word_end(s@, end as int),
            decreases s@.len() - end,
        {
            end += 1;
        }
        (Some(Token::Word(slice_text(s, at, end))), end)
    }
}

/// Cuts a text into tokens.
pub fn tokenize(text: &str) -> (r: Vec<Token>)
    ensures
        token_views(r@) == tokens_from(text@, 0),
{
    let chars = chars_of(text);
    let mut out: Vec<Token> = Vec::new();
    let mut at: usize = 0;
    proof {
        assert(token_views(out@) + tokens_from(chars@, 0) =~= tokens_from(chars@, 0));
    }
    while at < chars.len()
        invariant
            at <= chars@.len(),
            tokens_from(chars@, 0) == token_views(out@) + tokens_from(chars@, at as int),
        decreases chars@.len() - at,
    {
        let ghost done = token_views(out@);
        let (token, end) = read_token(&chars, at);
        if let Some(token) = token {
            out.push(token);
            proof {
                assert(token_views(out@) =~= done.push(token@));
                assert(done.push(token@) + tokens_from(chars@, end as int) =~= done + (seq![token@]
                    + tokens_from(chars@, end as int)));
            }
        }
        at = end;
    }
    assert(token_views(out@) + tokens_from(chars@, at as int) =~= token_views(out@));
    out
}

// ---------------------------------------------------------------------------
// Conditions
// ---------------------------------------------------------------------------

/// A list of filters and where the next token stands, or why there is none.
pub ghost enum Parsed<T> {
    Good(T, int),
    Bad(Seq<char>),
}

/// The token at `at` is this word, whatever the case of its letters.
pub open spec fn is_word(tokens: Seq<TokenView>, at: int, word: Seq<char>) -> bool {
    0 <= at < tokens.len() && match tokens[at] {
        TokenView::Word(text) => lowered(text) == word,
        _ => false,
    }
}

/// The value at `at`: a word or a quoted text.
pub open spec fn value_at(tokens: Seq<TokenView>, at: int) -> Option<Seq<char>> {
    if 0 <= at < tokens.len() {
        match tokens[at] {
            TokenView::Word(text) => Some(text),
            TokenView::Quoted(text) => Some(text),
            _ => None,
        }
    } else {
        None
    }
}

/// The token compares two values.
pub open spec fn is_comparison(token: TokenView) -> bool {
    token is Eq || token is NotEq || token is Gte || token is Gt || token is Lte || token is Lt
}

/// The severity above.
pub open spec fn level_above(level: LogLevel) -> Option<LogLevel> {
    match level {
        LogLevel::Trace => Some(LogLevel::Debug),
        LogLevel::Debug => Some(LogLevel::Info),
        LogLevel::Info => Some(LogLevel::Warn),
        LogLevel::Warn => Some(LogLevel::Error),
        LogLevel::Error => Some(LogLevel::Fatal),
        LogLevel::Fatal => None,
    }
}

/// Rows with a severity below `level`.
pub open spec fn below(level: LogLevel) -> FilterView {
    FilterView::And(
        seq![
            FilterView::LevelAtLeast(LogLevel::Trace),
            FilterView::Not(Box::new(FilterView::LevelAtLeast(level))),
        ],
    )
}

/// A comparison with a severity. Rows without one satisfy only `!=`.
pub open spec fn level_condition(operator: TokenView, level: LogLevel, next: int) -> Parsed<
    FilterView,
> {
    match operator {
        TokenView::Eq => Parsed::Good(FilterView::LevelEquals(level), next),
        TokenView::NotEq => Parsed::Good(
            FilterView::Not(Box::new(FilterView::LevelEquals(level))),
            next,
        ),
        TokenView::Gte => Parsed::Good(FilterView::LevelAtLeast(level), next),
        TokenView::Gt => match level_above(level) {
            Some(above) => Parsed::Good(FilterView::LevelAtLeast(above), next),
            None => Parsed::Bad("no log level above fatal"@),
        },
        TokenView::Lte => match level_above(level) {
            Some(above) => Parsed::Good(below(above), next),
            None => Parsed::Good(FilterView::LevelAtLeast(LogLevel::Trace), next),
        },
        TokenView::Lt => Parsed::Good(below(level), next),
        _ => Parsed::Bad("operator not valid for level"@),
    }
}

/// The severities of a list such as `warn, error)` from `at` on.
pub open spec fn level_list(tokens: Seq<TokenView>, at: int) -> Parsed<Seq<FilterView>>
    decreases tokens.len() - at,
{
    match value_at(tokens, at) {
        None => Parsed::Bad("expected a log level"@),
        Some(value) => match level_named(value) {
            None => Parsed::Bad("unknown log level"@),
            Some(level) => {
                let one = seq![FilterView::LevelEquals(level)];
                if at + 1 < tokens.len() && tokens[at + 1] is Comma {
                    match level_list(tokens, at + 2) {
                        Parsed::Good(rest, next) => Parsed::Good(one + rest, next),
                        Parsed::Bad(reason) => Parsed::Bad(reason),
                    }
                } else if at + 1 < tokens.len() && tokens[at + 1] is RParen {
                    Parsed::Good(one, at + 2)
                } else {
                    Parsed::Bad("expected ',' or ')' in a list of log levels"@)
                }
            },
        },
    }
}

/// A condition on the severity.
pub open spec fn level_clause(tokens: Seq<TokenView>, at: int) -> Parsed<FilterView> {
    if is_word(tokens, at + 1, "in"@) {
        if tokens[at + 2] is LParen {
            match level_list(tokens, at + 3) {
                Parsed::Good(levels, next) => Parsed::Good(FilterView::Or(levels), next),
                Parsed::Bad(reason) => Parsed::Bad(reason),
            }
        } else {
            Parsed::Bad("expected '(' after in"@)
        }
    } else {
        match value_at(tokens, at + 2) {
            None => Parsed::Bad("expected a log level"@),
            Some(value) => match level_named(value) {
                None => Parsed::Bad("unknown log level"@),
                Some(level) => level_condition(tokens[at + 1], level, at + 3),
            },
        }
    }
}

/// A condition on the message.
pub open spec fn message_clause(tokens: Seq<TokenView>, at: int) -> Parsed<FilterView> {
    if !is_word(tokens, at + 1, "contains"@) {
        Parsed::Bad("operator not valid for message"@)
    } else {
        match value_at(tokens, at + 2) {
            None => Parsed::Bad("expected a value"@),
            Some(value) => Parsed::Good(FilterView::Contains(value), at + 3),
        }
    }
}

/// Every character is a decimal digit.
pub open spec fn all_digits(s: Seq<char>) -> bool {
    forall|i: int| 0 <= i < s.len() ==> '0' <= #[trigger] s[i] && s[i] <= '9'
}

/// The number that decimal digits stand for.
pub open spec fn digits_value(s: Seq<char>) -> nat
    decreases s.len(),
{
    if s.len() == 0 {
        0
    } else {
        (digits_value(s.drop_last()) * 10 + (s.last() as u32 - '0' as u32)) as nat
    }
}

/// The number of a source.
pub open spec fn source_named(s: Seq<char>) -> Option<SourceId> {
    if s.len() > 0 && all_digits(s) && digits_value(s) <= u64::MAX {
        Some(SourceId(digits_value(s) as u64))
    } else {
        None
    }
}

/// A condition on the source.
pub open spec fn source_clause(tokens: Seq<TokenView>, at: int) -> Parsed<FilterView> {
    match value_at(tokens, at + 2) {
        None => Parsed::Bad("expected a source number"@),
        Some(value) => match source_named(value) {
            None => Parsed::Bad("expected a source number"@),
            Some(source_id) => match tokens[at + 1] {
                TokenView::Eq => Parsed::Good(FilterView::Source(source_id), at + 3),
                TokenView::NotEq => Parsed::Good(
                    FilterView::Not(Box::new(FilterView::Source(source_id))),
                    at + 3,
                ),
                _ => Parsed::Bad("operator not valid for source"@),
            },
        },
    }
}

/// A comparison with a point in time. Rows without a timestamp satisfy only `!=`.
pub open spec fn timestamp_condition(operator: TokenView, time: Timestamp, next: int) -> Parsed<
    FilterView,
> {
    match operator {
        TokenView::Eq => Parsed::Good(FilterView::TimestampBetween(time, time), next),
        TokenView::NotEq => Parsed::Good(
            FilterView::Not(Box::new(FilterView::TimestampBetween(time, time))),
            next,
        ),
        TokenView::Gte => Parsed::Good(FilterView::TimestampFrom(time), next),
        TokenView::Gt => Parsed::Good(
            FilterView::And(
                seq![
                    FilterView::TimestampFrom(time),
                    FilterView::Not(Box::new(FilterView::TimestampUntil(time))),
                ],
            ),
            next,
        ),
        TokenView::Lte => Parsed::Good(FilterView::TimestampUntil(time), next),
        TokenView::Lt => Parsed::Good(
            FilterView::And(
                seq![
                    FilterView::TimestampUntil(time),
                    FilterView::Not(Box::new(FilterView::TimestampFrom(time))),
                ],
            ),
            next,
        ),
        _ => Parsed::Bad("operator not valid for timestamp"@),
    }
}

/// A condition on the timestamp.
pub open spec fn timestamp_clause(tokens: Seq<TokenView>, at: int) -> Parsed<FilterView> {
    if !is_word(tokens, at + 1, "between"@) {
        match value_at(tokens, at + 2) {
            None => Parsed::Bad("expected a timestamp"@),
            Some(value) => match timestamp_named(value) {
                None => Parsed::Bad("invalid timestamp"@),
                Some(time) => timestamp_condition(tokens[at + 1], time, at + 3),
            },
        }
    } else if !is_word(tokens, at + 3, "and"@) {
        Parsed::Bad("expected two timestamps joined by and"@)
    } else {
        match (value_at(tokens, at + 2), value_at(tokens, at + 4)) {
            (Some(from), Some(to)) => match (timestamp_named(from), timestamp_named(to)) {
                (Some(from), Some(to)) => Parsed::Good(
                    FilterView::TimestampBetween(from, to),
                    at + 5,
                ),
                _ => Parsed::Bad("invalid timestamp"@),
            },
            _ => Parsed::Bad("expected two timestamps joined by and"@),
        }
    }
}

/// The name of a field, without the prefix that tells it from a reserved name.
pub open spec fn field_name(name: Seq<char>) -> Seq<char> {
    if begins_with(name, "json."@) {
        name.subrange("json."@.len() as int, name.len() as int)
    } else {
        name
    }
}

/// A condition on a field.
pub open spec fn field_clause(name: Seq<char>, tokens: Seq<TokenView>, at: int) -> Parsed<
    FilterView,
> {
    match value_at(tokens, at + 2) {
        None => Parsed::Bad("expected a value"@),
        Some(value) => if is_word(tokens, at + 1, "contains"@) {
            Parsed::Good(FilterView::FieldContains(field_name(name), value), at + 3)
        } else {
            match tokens[at + 1] {
                TokenView::Eq => Parsed::Good(
                    FilterView::FieldEquals(field_name(name), value),
                    at + 3,
                ),
                TokenView::NotEq => Parsed::Good(
                    FilterView::Not(Box::new(FilterView::FieldEquals(field_name(name), value))),
                    at + 3,
                ),
                _ => Parsed::Bad("operator not valid for a field"@),
            }
        },
    }
}

/// One condition: a name, an operator and a value.
pub open spec fn clause(tokens: Seq<TokenView>, at: int) -> Parsed<FilterView> {
    if at + 2 >= tokens.len() {
        Parsed::Bad("incomplete condition"@)
    } else {
        match tokens[at] {
            TokenView::Word(name) => if lowered(name) == "level"@ {
                level_clause(tokens, at)
            } else if lowered(name) == "message"@ {
                message_clause(tokens, at)
            } else if lowered(name) == "source"@ {
                source_clause(tokens, at)
            } else if lowered(name) == "timestamp"@ {
                timestamp_clause(tokens, at)
            } else {
                field_clause(name, tokens, at)
            },
            _ => Parsed::Bad("expected a name"@),
        }
    }
}

/// The conditions from `at` on, joined by `and`, up to the end.
pub open spec fn conditions(tokens: Seq<TokenView>, at: int) -> Parsed<Seq<FilterView>>
    decreases tokens.len() - at,
{
    match clause(tokens, at) {
        Parsed::Bad(reason) => Parsed::Bad(reason),
        Parsed::Good(filter, next) => if next >= tokens.len() || next <= at {
            Parsed::Good(seq![filter], next)
        } else if is_word(tokens, next, "and"@) {
            match conditions(tokens, next + 1) {
                Parsed::Good(rest, end) => Parsed::Good(seq![filter] + rest, end),
                Parsed::Bad(reason) => Parsed::Bad(reason),
            }
        } else {
            Parsed::Bad("expected and between conditions"@)
        },
    }
}

/// The tokens are those of a query: a name and an operator that goes with it stand first.
pub open spec fn is_query(tokens: Seq<TokenView>) -> bool {
    tokens.len() >= 2 && match tokens[0] {
        TokenView::Word(name) => {
            ||| is_comparison(tokens[1])
            ||| lowered(name) == "level"@ && is_word(tokens, 1, "in"@)
            ||| lowered(name) == "timestamp"@ && is_word(tokens, 1, "between"@)
            ||| (lowered(name) == "message"@ || begins_with(name, "json."@)) && is_word(
                tokens,
                1,
                "contains"@,
            )
        },
        _ => false,
    }
}

/// All of several filters; one alone stands for itself, and none accepts every row.
pub open spec fn all_of(parts: Seq<FilterView>) -> FilterView {
    if parts.len() == 0 {
        FilterView::All
    } else if parts.len() == 1 {
        parts[0]
    } else {
        FilterView::And(parts)
    }
}

/// The filter that a text stands for: every row for a blank one, a query, or else a search for
/// the text in the raw line; or why the query is none.
pub open spec fn text_filter(text: Seq<char>) -> Result<FilterView, Seq<char>> {
    let words = trimmed(text);
    if words.len() == 0 {
        Ok(FilterView::All)
    } else if is_query(tokens_from(words, 0)) {
        match conditions(tokens_from(words, 0), 0) {
            Parsed::Good(parts, _) => Ok(all_of(parts)),
            Parsed::Bad(reason) => Err(reason),
        }
    } else {
        Ok(FilterView::RawContains(words))
    }
}

/// What a parser found: a filter and where the next token stands, or why there is none.
enum Outcome<T> {
    Good(T, usize),
    Bad(String),
}

/// The outcome is the one described.
spec fn agrees(outcome: Outcome<FilterExpr>, parsed: Parsed<FilterView>) -> bool {
    match (outcome, parsed) {
        (Outcome::Good(filter, next), Parsed::Good(view, end)) => filter@ == view && next == end,
        (Outcome::Bad(reason), Parsed::Bad(text)) => reason@ == text,
        _ => false,
    }
}

/// The filters of a list.
pub open spec fn filter_views(filters: Seq<FilterExpr>) -> Seq<FilterView> {
    Seq::new(filters.len(), |i: int| filters[i]@)
}

/// The outcome is the one described.
spec fn list_agrees(outcome: Outcome<Vec<FilterExpr>>, parsed: Parsed<Seq<FilterView>>) -> bool {
    match (outcome, parsed) {
        (Outcome::Good(filters, next), Parsed::Good(views, end)) => filter_views(filters@) == views
            && next == end,
        (Outcome::Bad(reason), Parsed::Bad(text)) => reason@ == text,
        _ => false,
    }
}

/// Whether the token at `at` is this word.
fn word_is(tokens: &Vec<Token>, at: usize, word: &str) -> (r: bool)
    ensures
        r == is_word(token_views(tokens@), at as int, word@),
{
    if at < tokens.len() {
        match &tokens[at] {
            Token::Word(text) => same_text(&lowercase(text), word),
            _ => false,
        }
    } else {
        false
    }
}

/// The value at `at`.
fn value_of(tokens: &Vec<Token>, at: usize) -> (r: Option<&str>)
    ensures
        match r {
            Some(value) => value_at(token_views(tokens@), at as int) == Some(value@),
            None => value_at(token_views(tokens@), at as int) is None,
        },
{
    if at < tokens.len() {
        match &tokens[at] {
            Token::Word(text) => Some(text.as_str()),
            Token::Quoted(text) => Some(text.as_str()),
            _ => None,
        }
    } else {
        None
    }
}

/// The severity above.
pub fn next_level(level: LogLevel) -> (r: Option<LogLevel>)
    ensures
        r == level_above(level),
{
    match level {
        LogLevel::Trace => Some(LogLevel::Debug),
        LogLevel::Debug => Some(LogLevel::Info),
        LogLevel::Info => Some(LogLevel::Warn),
        LogLevel::Warn => Some(LogLevel::Error),
        LogLevel::Error => Some(LogLevel::Fatal),
        LogLevel::Fatal => None,
    }
}

/// The negation of a filter.
fn negated(filter: FilterExpr) -> (r: FilterExpr)
    ensures
        r@ == FilterView::Not(Box::new(filter@)),
{
    FilterExpr::Not(Box::new(filter))
}

/// Rows with a severity below `level`.
fn level_below(level: LogLevel) -> (r: FilterExpr)
    ensures
        r@ == below(level),
{
    but_not(FilterExpr::LevelAtLeast(LogLevel::Trace), FilterExpr::LevelAtLeast(level))
}

/// An outcome without a filter.
fn bad<T>(reason: &str) -> (r: Outcome<T>)
    ensures
        r matches Outcome::Bad(text) && text@ == reason@,
{
    Outcome::Bad(reason.to_owned())
}

/// A comparison with a severity.
fn level_compare(operator: &Token, level: LogLevel, next: usize) -> (r: Outcome<FilterExpr>)
    ensures
        agrees(r, level_condition(operator@, level, next as int)),
{
    match operator {
        Token::Eq => Outcome::Good(FilterExpr::LevelEquals(level), next),
        Token::NotEq => Outcome::Good(negated(FilterExpr::LevelEquals(level)), next),
        Token::Gte => Outcome::Good(FilterExpr::LevelAtLeast(level), next),
        Token::Gt => match next_level(level) {
            Some(above) => Outcome::Good(FilterExpr::LevelAtLeast(above), next),
            None => bad("no log level above fatal"),
        },
        Token::Lte => match next_level(level) {
            Some(above) => Outcome::Good(level_below(above), next),
            None => Outcome::Good(FilterExpr::LevelAtLeast(LogLevel::Trace), next),
        },
        Token::Lt => Outcome::Good(level_below(level), next),
        _ => bad("operator not valid for level"),
    }
}

/// The severities of a list from `at` on.
fn parse_level_list(tokens: &Vec<Token>, at: usize) -> (r: Outcome<Vec<FilterExpr>>)
    requires
        at <= tokens@.len(),
    ensures
        list_agrees(r, level_list(token_views(tokens@), at as int)),
        r matches Outcome::Good(_, next) ==> at < next <= tokens@.len(),
    decreases tokens@.len() - at,
{
    let level = match value_of(tokens, at) {
        None => {
            return bad("expected a log level");
        },
        Some(value) => match LogLevel::parse(value) {
            None => {
                return bad("unknown log level");
            },
            Some(level) => level,
        },
    };
    let mut levels: Vec<FilterExpr> = Vec::new();
    levels.push(FilterExpr::LevelEquals(level));
    assert(filter_views(levels@) =~= seq![FilterView::LevelEquals(level)]);
    let left: usize = tokens.len() - at;
    if left > 1 {
        match &tokens[at + 1] {
            Token::Comma => match parse_level_list(tokens, at + 2) {
                Outcome::Good(rest, next) => {
                    let ghost front = filter_views(levels@);
                    let ghost back = filter_views(rest@);
                    let mut rest = rest;
                    levels.append(&mut rest);
                    assert(filter_views(levels@) =~= front + back);
                    Outcome::Good(levels, next)
                },
                Outcome::Bad(reason) => Outcome::Bad(reason),
            },
            Token::RParen => Outcome::Good(levels, at + 2),
            _ => bad("expected ',' or ')' in a list of log levels"),
        }
    } else {
        bad("expected ',' or ')' in a list of log levels")
    }
}

/// A condition on the severity.
fn parse_level_clause(tokens: &Vec<Token>, at: usize) -> (r: Outcome<FilterExpr>)
    requires
        at + 2 < tokens.len(),
    ensures
        agrees(r, level_clause(token_views(tokens@), at as int)),
        r matches Outcome::Good(_, next) ==> at < next <= tokens@.len(),
{
    if word_is(tokens, at + 1, "in") {
        match &tokens[at + 2] {
            Token::LParen => match parse_level_list(tokens, at + 3) {
                Outcome::Good(levels, next) => {
                    let filter = FilterExpr::Or(levels);
                    assert(filter@->Or_0 =~= filter_views(levels@));
                    Outcome::Good(filter, next)
                },
                Outcome::Bad(reason) => Outcome::Bad(reason),
            },
            _ => bad("expected '(' after in"),
        }
    } else {
        match value_of(tokens, at + 2) {
            None => bad("expected a log level"),
            Some(value) => match LogLevel::parse(value) {
                None => bad("unknown log level"),
                Some(level) => level_compare(&tokens[at + 1], level, at + 3),
            },
        }
    }
}

/// A condition on the message.
fn parse_message_clause(tokens: &Vec<Token>, at: usize) -> (r: Outcome<FilterExpr>)
    requires
        at + 2 < tokens.len(),
    ensures
        agrees(r, message_clause(token_views(tokens@), at as int)),
        r matches Outcome::Good(_, next) ==> at < next <= tokens@.len(),
{
    if !word_is(tokens, at + 1, "contains") {
        return bad("operator not valid for message");
    }
    match value_of(tokens, at + 2) {
        None => bad("expected a value"),
        Some(value) => Outcome::Good(FilterExpr::Contains(value.to_owned()), at + 3),
    }
}

/// Reads the number of a source.
pub fn parse_source(text: &str) -> (r: Option<SourceId>)
    ensures
        r == source_named(text@),
{
    let chars = chars_of(text);
    if chars.len() == 0 {
        return None;
    }
    let mut value: u64 = 0;
    let mut too_large: bool = false;
    let mut i: usize = 0;
    while i < chars.len()
        invariant
            i <= chars@.len(),
            chars@ == text@,
            all_digits(chars@.subrange(0, i as int)),
            too_large ==> digits_value(chars@.subrange(0, i as int)) > u64::MAX,
            !too_large ==> digits_value(chars@.subrange(0, i as int)) == value,
        decreases chars@.len() - i,
    {
        let c = chars[i];
        let ghost done = chars@.subrange(0, i as int);
        let ghost next = chars@.subrange(0, i + 1);
        proof {
            assert(next.drop_last() =~= done);
            assert(next.last() == c);
        }
        if !('0' <= c && c <= '9') {
            assert(!all_digits(chars@)) by {
                assert(chars@[i as int] == c);
            }
            return None;
        }
        let digit: u64 = (c as u32 - '0' as u32) as u64;
        assert(digits_value(next) == digits_value(done) * 10 + digit);
        if !too_large {
            if value > (u64::MAX - digit) / 10 {
                too_large = true;
            } else {
                value = value * 10 + digit;
            }
        }
        i += 1;
        assert(all_digits(next)) by {
            assert forall|k: int| 0 <= k < next.len() implies '0' <= #[trigger] next[k] && next[k]
                <= '9' by {
                if k < done.len() {
                    assert(next[k] == done[k]);
                }
            }
        }
    }
    assert(chars@.subrange(0, i as int) =~= chars@);
    if too_large {
        None
    } else {
        Some(SourceId(value))
    }
}

/// A condition on the source.
fn parse_source_clause(tokens: &Vec<Token>, at: usize) -> (r: Outcome<FilterExpr>)
    requires
        at + 2 < tokens.len(),
    ensures
        agrees(r, source_clause(token_views(tokens@), at as int)),
        r matches Outcome::Good(_, next) ==> at < next <= tokens@.len(),
{
    match value_of(tokens, at + 2) {
        None => bad("expected a source number"),
        Some(value) => match parse_source(value) {
            None => bad("expected a source number"),
            Some(source_id) => match &tokens[at + 1] {
                Token::Eq => Outcome::Good(FilterExpr::Source(source_id), at + 3),
                Token::NotEq => Outcome::Good(negated(FilterExpr::Source(source_id)), at + 3),
                _ => bad("operator not valid for source"),
            },
        },
    }
}

/// Rows that the first filter accepts and the second does not.
fn but_not(accepted: FilterExpr, refused: FilterExpr) -> (r: FilterExpr)
    ensures
        r@ == FilterView::And(seq![accepted@, FilterView::Not(Box::new(refused@))]),
{
    let mut parts: Vec<FilterExpr> = Vec::new();
    parts.push(accepted);
    parts.push(negated(refused));
    let r = FilterExpr::And(parts);
    assert(r@->And_0 =~= seq![accepted@, FilterView::Not(Box::new(refused@))]);
    r
}

/// A comparison with a point in time.
fn timestamp_compare(operator: &Token, time: Timestamp, next: usize) -> (r: Outcome<FilterExpr>)
    ensures
        agrees(r, timestamp_condition(operator@, time, next as int)),
        r matches Outcome::Good(_, end) ==> end == next,
{
    match operator {
        Token::Eq => Outcome::Good(FilterExpr::TimestampBetween(time, time), next),
        Token::NotEq => Outcome::Good(negated(FilterExpr::TimestampBetween(time, time)), next),
        Token::Gte => Outcome::Good(FilterExpr::TimestampFrom(time), next),
        Token::Gt => Outcome::Good(
            but_not(FilterExpr::TimestampFrom(time), FilterExpr::TimestampUntil(time)),
            next,
        ),
        Token::Lte => Outcome::Good(FilterExpr::TimestampUntil(time), next),
        Token::Lt => Outcome::Good(
            but_not(FilterExpr::TimestampUntil(time), FilterExpr::TimestampFrom(time)),
            next,
        ),
        _ => bad("operator not valid for timestamp"),
    }
}

/// A condition on the timestamp.
fn parse_timestamp_clause(tokens: &Vec<Token>, at: usize) -> (r: Outcome<FilterExpr>)
    requires
        at + 2 < tokens.len(),
    ensures
        agrees(r, timestamp_clause(token_views(tokens@), at as int)),
        r matches Outcome::Good(_, next) ==> at < next <= tokens@.len(),
{
    if !word_is(tokens, at + 1, "between") {
        return match value_of(tokens, at + 2) {
            None => bad("expected a timestamp"),
            Some(value) => match Timestamp::parse(value) {
                None => bad("invalid timestamp"),
                Some(time) => timestamp_compare(&tokens[at + 1], time, at + 3),
            },
        };
    }
    let left: usize = tokens.len() - at;
    if left <= 3 || !word_is(tokens, at + 3, "and") {
        return bad("expected two timestamps joined by and");
    }
    if left <= 4 {
        return bad("expected two timestamps joined by and");
    }
    match (value_of(tokens, at + 2), value_of(tokens, at + 4)) {
        (Some(from), Some(to)) => match (Timestamp::parse(from), Timestamp::parse(to)) {
            (Some(from), Some(to)) => Outcome::Good(
                FilterExpr::TimestampBetween(from, to),
                at + 5,
            ),
            _ => bad("invalid timestamp"),
        },
        _ => bad("expected two timestamps joined by and"),
    }
}

/// The name of a field, without its prefix.
fn strip_prefix(name: &str) -> (r: String)
    ensures
        r@ == field_name(name@),
{
    if starts_with(name, "json.") {
        let count: usize = name.unicode_len();
        let skip: usize = "json.".unicode_len();
        name.substring_char(skip, count).to_owned()
    } else {
        name.to_owned()
    }
}

/// A condition on a field.
fn parse_field_clause(name: &str, tokens: &Vec<Token>, at: usize) -> (r: Outcome<FilterExpr>)
    requires
        at + 2 < tokens.len(),
    ensures
        agrees(r, field_clause(name@, token_views(tokens@), at as int)),
        r matches Outcome::Good(_, next) ==> at < next <= tokens@.len(),
{
    let value = match value_of(tokens, at + 2) {
        None => {
            return bad("expected a value");
        },
        Some(value) => value.to_owned(),
    };
    let field = strip_prefix(name);
    if word_is(tokens, at + 1, "contains") {
        return Outcome::Good(FilterExpr::FieldContains(field, value), at + 3);
    }
    match &tokens[at + 1] {
        Token::Eq => Outcome::Good(FilterExpr::FieldEquals(field, value), at + 3),
        Token::NotEq => Outcome::Good(negated(FilterExpr::FieldEquals(field, value)), at + 3),
        _ => bad("operator not valid for a field"),
    }
}

/// One condition.
fn parse_clause(tokens: &Vec<Token>, at: usize) -> (r: Outcome<FilterExpr>)
    requires
        at <= tokens@.len(),
    ensures
        agrees(r, clause(token_views(tokens@), at as int)),
        r matches Outcome::Good(_, next) ==> at < next <= tokens@.len(),
{
    if tokens.len() - at <= 2 {
        return bad("incomplete condition");
    }
    match &tokens[at] {
        Token::Word(name) => {
            let key = lowercase(name);
            if same_text(&key, "level") {
                parse_level_clause(tokens, at)
            } else if same_text(&key, "message") {
                parse_message_clause(tokens, at)
            } else if same_text(&key, "source") {
                parse_source_clause(tokens, at)
            } else if same_text(&key, "timestamp") {
                parse_timestamp_clause(tokens, at)
            } else {
                parse_field_clause(name, tokens, at)
            }
        },
        _ => bad("expected a name"),
    }
}

/// The conditions from `at` on.
fn parse_conditions(tokens: &Vec<Token>, at: usize) -> (r: Outcome<Vec<FilterExpr>>)
    requires
        at <= tokens@.len(),
    ensures
        list_agrees(r, conditions(token_views(tokens@), at as int)),
    decreases tokens@.len() - at,
{
    match parse_clause(tokens, at) {
        Outcome::Bad(reason) => Outcome::Bad(reason),
        Outcome::Good(filter, next) => {
            let mut parts: Vec<FilterExpr> = Vec::new();
            parts.push(filter);
            assert(filter_views(parts@) =~= seq![filter@]);
            if next >= tokens.len() {
                return Outcome::Good(parts, next);
            }
            if !word_is(tokens, next, "and") {
                return bad("expected and between conditions");
            }
            match parse_conditions(tokens, next + 1) {
                Outcome::Good(rest, end) => {
                    let ghost front = filter_views(parts@);
                    let ghost back = filter_views(rest@);
                    let mut rest = rest;
                    parts.append(&mut rest);
                    assert(filter_views(parts@) =~= front + back);
                    Outcome::Good(parts, end)
                },
                Outcome::Bad(reason) => Outcome::Bad(reason),
            }
        },
    }
}

/// Whether the tokens are those of a query.
fn looks_like_query(tokens: &Vec<Token>) -> (r: bool)
    ensures
        r == is_query(token_views(tokens@)),
{
    if tokens.len() < 2 {
        return false;
    }
    match &tokens[0] {
        Token::Word(name) => {
            let key = lowercase(name);
            let comparison: bool = match &tokens[1] {
                Token::Eq => true,
                Token::NotEq => true,
                Token::Gte => true,
                Token::Gt => true,
                Token::Lte => true,
                Token::Lt => true,
                _ => false,
            };
            comparison || (same_text(&key, "level") && word_is(tokens, 1, "in")) || (same_text(
                &key,
                "timestamp",
            ) && word_is(tokens, 1, "between")) || ((same_text(&key, "message") || starts_with(
                name,
                "json.",
            )) && word_is(tokens, 1, "contains"))
        },
        _ => false,
    }
}

/// All of several filters.
fn conjunction(parts: Vec<FilterExpr>) -> (r: FilterExpr)
    ensures
        r@ == all_of(filter_views(parts@)),
{
    let mut parts = parts;
    if parts.len() == 0 {
        FilterExpr::All
    } else if parts.len() == 1 {
        parts.remove(0)
    } else {
        let ghost views = filter_views(parts@);
        let r = FilterExpr::And(parts);
        assert(r@->And_0 =~= views);
        r
    }
}

/// Reads the text of a filter: a query, or else text to search for in the raw line. A query that
/// is not well formed is refused.
pub fn parse_filter_query(text: &str) -> (r: Result<FilterExpr, FilterError>)
    ensures
        match r {
            Ok(filter) => text_filter(text@) == Ok::<FilterView, Seq<char>>(filter@),
            Err(FilterError::InvalidQuery(reason)) => text_filter(text@) == Err::<
                FilterView,
                Seq<char>,
            >(reason@),
            Err(FilterError::InvalidRegex { pattern, source }) => false,
        },
{
    let words = trim(text);
    if words.is_empty() {
        return Ok(FilterExpr::All);
    }
    let tokens = tokenize(words);
    if looks_like_query(&tokens) {
        match parse_conditions(&tokens, 0) {
            Outcome::Good(parts, _) => Ok(conjunction(parts)),
            Outcome::Bad(reason) => Err(FilterError::InvalidQuery(reason)),
        }
    } else {
        Ok(FilterExpr::RawContains(words.to_owned()))
    }
}

/// The filter made of a saved filter, a lowest severity and a text, as far as they are given; a
/// blank text is none.
pub open spec fn composed(
    saved: Option<FilterView>,
    level: Option<LogLevel>,
    text: Option<Seq<char>>,
) -> Result<FilterView, Seq<char>> {
    let first = match saved {
        Some(filter) => seq![filter],
        None => Seq::empty(),
    };
    let second = match level {
        Some(level) => seq![FilterView::LevelAtLeast(level)],
        None => Seq::empty(),
    };
    match text {
        Some(text) => if trimmed(text).len() == 0 {
            Ok(all_of(first + second))
        } else {
            match text_filter(text) {
                Ok(filter) => Ok(all_of(first + second + seq![filter])),
                Err(reason) => Err(reason),
            }
        },
        None => Ok(all_of(first + second)),
    }
}

/// Makes one filter of a saved filter, a lowest severity and a text.
pub fn compose_query_filter(
    saved: Option<&FilterExpr>,
    level: Option<LogLevel>,
    text: Option<&str>,
) -> (r: Result<FilterExpr, FilterError>)
    ensures
        ({
            let wanted = composed(
                match saved {
                    Some(filter) => Some(filter@),
                    None => None,
                },
                level,
                match text {
                    Some(text) => Some(text@),
                    None => None,
                },
            );
            match r {
                Ok(filter) => wanted == Ok::<FilterView, Seq<char>>(filter@),
                Err(FilterError::InvalidQuery(reason)) => wanted == Err::<FilterView, Seq<char>>(
                    reason@,
                ),
                Err(FilterError::InvalidRegex { pattern, source }) => false,
            }
        }),
{
    let mut parts: Vec<FilterExpr> = Vec::new();
    let ghost first = match saved {
        Some(filter) => seq![filter@],
        None => Seq::empty(),
    };
    let ghost second = match level {
        Some(level) => seq![FilterView::LevelAtLeast(level)],
        None => Seq::empty(),
    };
    if let Some(filter) = saved {
        parts.push(filter.clone());
    }
    assert(filter_views(parts@) =~= first);
    if let Some(level) = level {
        parts.push(FilterExpr::LevelAtLeast(level));
    }
    assert(filter_views(parts@) =~= first + second);
    if let Some(text) = text {
        if !trim(text).is_empty() {
            match parse_filter_query(text) {
                Ok(filter) => {
                    parts.push(filter);
                    assert(filter_views(parts@) =~= first + second + seq![filter@]);
                },
                Err(error) => {
                    return Err(error);
                },
            }
        }
    }
    Ok(conjunction(parts))
}

// ---------------------------------------------------------------------------
// Laws
// ---------------------------------------------------------------------------

/// A conjunction of filters accepts what all of them accept, however many there are.
pub proof fn law_all_of(parts: Seq<FilterView>, row: RowView)
    ensures
        all_of(parts).accepts(row) == all_accept(parts, row),
{
    law_compositions(parts, row);
    if parts.len() == 1 {
        if all_accept(parts, row) {
            assert(parts[0].accepts(row));
        }
    }
}

/// A blank text is no filter: alone it accepts every row, and beside others it does not matter.
pub proof fn law_blank_text_is_no_filter(
    saved: Option<FilterView>,
    level: Option<LogLevel>,
    text: Seq<char>,
)
    requires
        trimmed(text).len() == 0,
    ensures
        text_filter(text) == Ok::<FilterView, Seq<char>>(FilterView::All),
        composed(saved, level, Some(text)) == composed(saved, level, None),
        composed(None, None, Some(text)) == Ok::<FilterView, Seq<char>>(FilterView::All),
{
    assert(Seq::<FilterView>::empty() + Seq::<FilterView>::empty() =~= Seq::<FilterView>::empty());
}

/// A composed filter accepts the rows that the saved filter, the lowest severity and the text
/// accept, as far as they are given.
pub proof fn law_composed_filters_all_apply(
    saved: Option<FilterView>,
    level: Option<LogLevel>,
    text: Option<Seq<char>>,
    row: RowView,
)
    requires
        composed(saved, level, text) is Ok,
    ensures
        composed(saved, level, text)->Ok_0.accepts(row) == {
            &&& saved matches Some(filter) ==> filter.accepts(row)
            &&& level matches Some(min) ==> FilterView::LevelAtLeast(min).accepts(row)
            &&& text matches Some(text) ==> trimmed(text).len() > 0 ==> text_filter(
                text,
            )->Ok_0.accepts(row)
        },
{
    let first = match saved {
        Some(filter) => seq![filter],
        None => Seq::empty(),
    };
    let second = match level {
        Some(level) => seq![FilterView::LevelAtLeast(level)],
        None => Seq::empty(),
    };
    let both = first + second;
    let parts = match text {
        Some(text) => if trimmed(text).len() == 0 {
            both
        } else {
            both + seq![text_filter(text)->Ok_0]
        },
        None => both,
    };
    law_all_of(parts, row);
    let expected = {
        &&& saved matches Some(filter) ==> filter.accepts(row)
        &&& level matches Some(min) ==> FilterView::LevelAtLeast(min).accepts(row)
        &&& text matches Some(text) ==> trimmed(text).len() > 0 ==> text_filter(
            text,
        )->Ok_0.accepts(row)
    };
    if all_accept(parts, row) {
        if saved is Some {
            assert(parts[0].accepts(row));
        }
        if level is Some {
            assert(parts[first.len() as int] == FilterView::LevelAtLeast(level->0));
            assert(parts[first.len() as int].accepts(row));
        }
        if text is Some && trimmed(text->0).len() > 0 {
            assert(parts[both.len() as int] == text_filter(text->0)->Ok_0);
            assert(parts[both.len() as int].accepts(row));
        }
    }
    if expected {
        assert forall|i: int| 0 <= i < parts.len() implies (#[trigger] parts[i]).accepts(row) by {
            if i < first.len() {
                assert(parts[i] == saved->0);
            } else if i < both.len() {
                assert(parts[i] == FilterView::LevelAtLeast(level->0));
            }
        }
    }
}

/// A comparison holds between two severities.
pub open spec fn compares(operator: TokenView, a: LogLevel, b: LogLevel) -> bool {
    match operator {
        TokenView::Eq => a.rank() == b.rank(),
        TokenView::NotEq => a.rank() != b.rank(),
        TokenView::Gte => a.rank() >= b.rank(),
        TokenView::Gt => a.rank() > b.rank(),
        TokenView::Lte => a.rank() <= b.rank(),
        TokenView::Lt => a.rank() < b.rank(),
        _ => false,
    }
}

/// Comparisons of the severity accept exactly the rows whose severity compares so. A row without
/// a severity is accepted by `!=` only.
pub proof fn law_level_comparisons(operator: TokenView, level: LogLevel, next: int, row: RowView)
    ensures
        match level_condition(operator, level, next) {
            Parsed::Good(filter, _) => filter.accepts(row) == match row.level {
                Some(found) => compares(operator, found, level),
                None => operator is NotEq,
            },
            Parsed::Bad(_) => !is_comparison(operator) || (operator is Gt && level
                == LogLevel::Fatal),
        },
{
    match operator {
        TokenView::Lte => {
            if let Some(above) = level_above(level) {
                lemma_below(above, row);
            }
        },
        TokenView::Lt => {
            lemma_below(level, row);
        },
        TokenView::NotEq => {
            let same = FilterView::LevelEquals(level);
            assert(FilterView::Not(Box::new(same)).accepts(row) == !same.accepts(row));
        },
        _ => {},
    }
}

/// `below` accepts rows with a lower severity.
proof fn lemma_below(level: LogLevel, row: RowView)
    ensures
        below(level).accepts(row) == match row.level {
            Some(found) => found.rank() < level.rank(),
            None => false,
        },
{
    lemma_but_not(FilterView::LevelAtLeast(LogLevel::Trace), FilterView::LevelAtLeast(level), row);
}

/// A comparison holds between two points in time.
pub open spec fn times_compare(operator: TokenView, a: Timestamp, b: Timestamp) -> bool {
    match operator {
        TokenView::Eq => a == b,
        TokenView::NotEq => a != b,
        TokenView::Gte => !a.is_before(b),
        TokenView::Gt => b.is_before(a),
        TokenView::Lte => !b.is_before(a),
        TokenView::Lt => a.is_before(b),
        _ => false,
    }
}

/// Comparisons of the timestamp accept exactly the rows whose timestamp compares so. A row
/// without a timestamp is accepted by `!=` only.
pub proof fn law_timestamp_comparisons(
    operator: TokenView,
    time: Timestamp,
    next: int,
    row: RowView,
)
    ensures
        match timestamp_condition(operator, time, next) {
            Parsed::Good(filter, _) => filter.accepts(row) == match row.timestamp {
                Some(found) => times_compare(operator, found, time),
                None => operator is NotEq,
            },
            Parsed::Bad(_) => !is_comparison(operator),
        },
{
    let same = FilterView::TimestampBetween(time, time);
    let from = FilterView::TimestampFrom(time);
    let until = FilterView::TimestampUntil(time);
    if let Some(found) = row.timestamp {
        if !found.is_before(time) && !time.is_before(found) {
            lemma_timestamp_is_its_parts(found, time);
        }
    }
    assert(FilterView::Not(Box::new(same)).accepts(row) == !same.accepts(row));
    lemma_but_not(from, until, row);
    lemma_but_not(until, from, row);
}

/// A conjunction with a negation accepts what the one accepts and the other does not.
proof fn lemma_but_not(accepted: FilterView, refused: FilterView, row: RowView)
    ensures
        FilterView::And(seq![accepted, FilterView::Not(Box::new(refused))]).accepts(row) == (
        accepted.accepts(row) && !refused.accepts(row)),
{
    let parts = seq![accepted, FilterView::Not(Box::new(refused))];
    law_compositions(parts, row);
    assert(parts[1].accepts(row) == !refused.accepts(row));
    if all_accept(parts, row) {
        assert(parts[0].accepts(row));
        assert(parts[1].accepts(row));
    } else {
        let i = choose|i: int| 0 <= i < parts.len() && !(#[trigger] parts[i]).accepts(row);
        assert(i == 0 || i == 1);
    }
}

/// Text that is no query is searched for in the raw line, whatever the case of its letters.
pub proof fn law_plain_text_is_searched_for(text: Seq<char>, row: RowView)
    requires
        trimmed(text).len() > 0,
        !is_query(tokens_from(trimmed(text), 0)),
    ensures
        text_filter(text) is Ok,
        text_filter(text)->Ok_0.accepts(row) == contains_folded(row.raw, trimmed(text)),
{
}

// ---------------------------------------------------------------------------
// Queries as texts
// ---------------------------------------------------------------------------

/// The end of a word does not depend on what stands in front.
proof fn lemma_word_end_moves(front: Seq<char>, b: Seq<char>, at: int)
    requires
        0 <= at <= b.len(),
    ensures
        word_end(front + b, front.len() + at) == front.len() + word_end(b, at),
    decreases b.len() - at,
{
    if at < b.len() {
        assert((front + b)[front.len() + at] == b[at]);
        if is_word_char(b[at]) {
            lemma_word_end_moves(front, b, at + 1);
        }
    }
}

/// The end of a quote does not depend on what stands in front.
proof fn lemma_quote_end_moves(front: Seq<char>, b: Seq<char>, at: int)
    requires
        0 <= at <= b.len(),
    ensures
        quote_end(front + b, front.len() + at) == front.len() + quote_end(b, at),
    decreases b.len() - at,
{
    if at < b.len() {
        assert((front + b)[front.len() + at] == b[at]);
        if b[at] != '"' {
            lemma_quote_end_moves(front, b, at + 1);
        }
    }
}

/// The tokens of a text do not depend on what stands in front of it.
proof fn lemma_tokens_move(front: Seq<char>, b: Seq<char>, at: int)
    requires
        0 <= at <= b.len(),
    ensures
        tokens_from(front + b, front.len() + at) == tokens_from(b, at),
    decreases b.len() - at,
{
    let s = front + b;
    let n = front.len() as int;
    if at < b.len() {
        lemma_token_end(b, at);
        lemma_token_end(s, n + at);
        lemma_word_end(b, at);
        lemma_quote_end(b, at + 1);
        lemma_word_end_moves(front, b, at);
        lemma_quote_end_moves(front, b, at + 1);
        assert(s[n + at] == b[at]);
        if at + 1 < b.len() {
            assert(s[n + at + 1] == b[at + 1]);
        }
        assert(s.subrange(n + at, n + word_end(b, at)) =~= b.subrange(at, word_end(b, at)));
        assert(s.subrange(n + at, n + at + 1) =~= b.subrange(at, at + 1));
        if quote_end(b, at + 1) < b.len() {
            assert(s.subrange(n + at + 1, n + quote_end(b, at + 1)) =~= b.subrange(
                at + 1,
                quote_end(b, at + 1),
            ));
        }
        let end = token_at(b, at).1;
        assert(token_at(s, n + at) == (token_at(b, at).0, n + end));
        lemma_tokens_move(front, b, end);
    }
}

/// A word that ends within a text ends there whatever follows, where what follows is no part of it.
proof fn lemma_word_end_stays(a: Seq<char>, rest: Seq<char>, at: int)
    requires
        0 <= at <= a.len(),
        rest.len() > 0 ==> !is_word_char(rest[0]),
    ensures
        word_end(a + rest, at) == word_end(a, at),
    decreases a.len() - at,
{
    if at < a.len() {
        assert((a + rest)[at] == a[at]);
        if is_word_char(a[at]) {
            lemma_word_end_stays(a, rest, at + 1);
        }
    } else if rest.len() > 0 {
        assert((a + rest)[at] == rest[0]);
    }
}

/// A quote that is closed within a text is closed there whatever follows.
proof fn lemma_quote_end_stays(a: Seq<char>, rest: Seq<char>, at: int)
    requires
        0 <= at <= a.len(),
        quote_end(a, at) < a.len(),
    ensures
        quote_end(a + rest, at) == quote_end(a, at),
    decreases a.len() - at,
{
    if at < a.len() {
        assert((a + rest)[at] == a[at]);
        if a[at] != '"' {
            lemma_quote_end_stays(a, rest, at + 1);
        }
    }
}

/// The tokens of a text whose last quote is closed stay when whitespace and more follow.
proof fn lemma_tokens_stay(a: Seq<char>, rest: Seq<char>, at: int)
    requires
        0 <= at <= a.len(),
        rest.len() > 0,
        is_white(rest[0]),
        tokens_from(a, at).len() > 0 ==> !(tokens_from(a, at).last() is Unclosed),
    ensures
        tokens_from(a + rest, at) == tokens_from(a, at) + tokens_from(a + rest, a.len() as int),
    decreases a.len() - at,
{
    let s = a + rest;
    if at == a.len() {
        assert(tokens_from(a, at) + tokens_from(s, at) =~= tokens_from(s, at));
    } else {
        lemma_token_end(a, at);
        lemma_token_end(s, at);
        let (token, end) = token_at(a, at);
        let others = tokens_from(a, end);
        assert(s[at] == a[at]);
        if at + 1 < a.len() {
            assert(s[at + 1] == a[at + 1]);
        } else {
            assert(s[at + 1] == rest[0]);
        }
        if token is Some {
            assert(tokens_from(a, at) =~= seq![token->0] + others);
            if others.len() > 0 {
                assert(tokens_from(a, at).last() == others.last());
            }
            if token->0 is Unclosed {
                assert(others.len() == 0);
                assert(tokens_from(a, at).last() == token->0);
            }
        }
        lemma_word_end(a, at);
        lemma_word_end_stays(a, rest, at);
        lemma_quote_end(a, at + 1);
        if a[at] == '"' {
            assert(quote_end(a, at + 1) < a.len());
            lemma_quote_end_stays(a, rest, at + 1);
            assert(s.subrange(at + 1, quote_end(a, at + 1)) =~= a.subrange(
                at + 1,
                quote_end(a, at + 1),
            ));
        }
        assert(s.subrange(at, word_end(a, at)) =~= a.subrange(at, word_end(a, at)));
        assert(s.subrange(at, at + 1) =~= a.subrange(at, at + 1));
        assert(token_at(s, at) == (token, end));
        lemma_tokens_stay(a, rest, end);
        assert(tokens_from(s, at) =~= tokens_from(a, at) + tokens_from(s, a.len() as int));
    }
}

/// A space in front makes no token.
proof fn lemma_space_makes_no_token(rest: Seq<char>)
    ensures
        tokens_from(seq![' '] + rest, 0) == tokens_from(rest, 0),
{
    let s = seq![' '] + rest;
    assert(s[0] == ' ');
    lemma_tokens_move(seq![' '], rest, 0);
}

/// A word in front is the first token.
proof fn lemma_word_is_a_token(word: Seq<char>, rest: Seq<char>)
    requires
        word.len() > 0,
        forall|i: int| 0 <= i < word.len() ==> is_word_char(#[trigger] word[i]),
        rest.len() > 0 ==> !is_word_char(rest[0]),
    ensures
        tokens_from(word + rest, 0) == seq![TokenView::Word(word)] + tokens_from(rest, 0),
{
    let s = word + rest;
    assert(s[0] == word[0]);
    lemma_word_reaches(word, 0);
    lemma_word_end_stays(word, rest, 0);
    assert(s.subrange(0, word.len() as int) =~= word);
    assert(is_word_char(word[0]));
    assert(token_at(s, 0) == (Some(TokenView::Word(word)), word.len() as int));
    lemma_tokens_move(word, rest, 0);
}

/// A text of word characters is one word.
proof fn lemma_word_reaches(word: Seq<char>, at: int)
    requires
        0 <= at <= word.len(),
        forall|i: int| 0 <= i < word.len() ==> is_word_char(#[trigger] word[i]),
    ensures
        word_end(word, at) == word.len(),
    decreases word.len() - at,
{
    if at < word.len() {
        assert(is_word_char(word[at]));
        lemma_word_reaches(word, at + 1);
    }
}

/// A text in quotes.
pub open spec fn quoted(text: Seq<char>) -> Seq<char> {
    seq!['"'] + text + seq!['"']
}

/// A text in quotes in front is the first token.
proof fn lemma_quoted_is_a_token(text: Seq<char>, rest: Seq<char>)
    requires
        forall|i: int| 0 <= i < text.len() ==> #[trigger] text[i] != '"',
    ensures
        tokens_from(quoted(text) + rest, 0) == seq![TokenView::Quoted(text)] + tokens_from(rest, 0),
{
    let q = quoted(text);
    let s = q + rest;
    assert(s[0] == '"');
    assert forall|i: int| 1 <= i < q.len() - 1 implies #[trigger] q[i] != '"' by {
        assert(q[i] == text[i - 1]);
    }
    assert(q[q.len() - 1] == '"');
    lemma_quote_reaches(q, 1, q.len() - 1);
    lemma_quote_end_stays(q, rest, 1);
    assert(s.subrange(1, q.len() - 1) =~= text);
    assert(token_at(s, 0) == (Some(TokenView::Quoted(text)), q.len() as int));
    lemma_tokens_move(q, rest, 0);
}

/// A quote reaches up to the next quote.
proof fn lemma_quote_reaches(s: Seq<char>, at: int, end: int)
    requires
        0 <= at <= end < s.len(),
        s[end] == '"',
        forall|i: int| at <= i < end ==> #[trigger] s[i] != '"',
    ensures
        quote_end(s, at) == end,
    decreases end - at,
{
    if at < end {
        lemma_quote_reaches(s, at + 1, end);
    }
}

/// An operator as it is written.
pub open spec fn operator_text(operator: TokenView) -> Seq<char> {
    match operator {
        TokenView::Eq => "="@,
        TokenView::NotEq => "!="@,
        TokenView::Gte => ">="@,
        TokenView::Gt => ">"@,
        TokenView::Lte => "<="@,
        _ => "<"@,
    }
}

/// An operator in front, with a space behind it, is the first token.
proof fn lemma_operator_is_a_token(operator: TokenView, rest: Seq<char>)
    requires
        is_comparison(operator),
        rest.len() > 0,
        rest[0] == ' ',
    ensures
        tokens_from(operator_text(operator) + rest, 0) == seq![operator] + tokens_from(rest, 0),
{
    reveal_strlit("=");
    reveal_strlit("!=");
    reveal_strlit(">=");
    reveal_strlit(">");
    reveal_strlit("<=");
    reveal_strlit("<");
    let o = operator_text(operator);
    let s = o + rest;
    assert(s[0] == o[0]);
    if o.len() == 2 {
        assert(s[1] == o[1]);
    } else {
        assert(s[1] == rest[0]);
    }
    assert(token_at(s, 0) == (Some(operator), o.len() as int));
    lemma_tokens_move(o, rest, 0);
}

/// The word that joins conditions is that word whatever the case of its letters.
proof fn lemma_words_in_lower_case()
    ensures
        lowered("and"@) == "and"@,
        lowered("in"@) == "in"@,
        lowered("contains"@) == "contains"@,
        lowered("between"@) == "between"@,
        lowered("level"@) == "level"@,
        lowered("message"@) == "message"@,
        lowered("source"@) == "source"@,
        lowered("timestamp"@) == "timestamp"@,
{
    reveal_strlit("and");
    reveal_strlit("in");
    reveal_strlit("contains");
    reveal_strlit("between");
    reveal_strlit("level");
    reveal_strlit("message");
    reveal_strlit("source");
    reveal_strlit("timestamp");
    assert(lowered("and"@) =~= "and"@);
    assert(lowered("in"@) =~= "in"@);
    assert(lowered("contains"@) =~= "contains"@);
    assert(lowered("between"@) =~= "between"@);
    assert(lowered("level"@) =~= "level"@);
    assert(lowered("message"@) =~= "message"@);
    assert(lowered("source"@) =~= "source"@);
    assert(lowered("timestamp"@) =~= "timestamp"@);
}

/// What was parsed, with its end moved.
spec fn moved<T>(parsed: Parsed<T>, n: int) -> Parsed<T> {
    match parsed {
        Parsed::Good(found, next) => Parsed::Good(found, next + n),
        Parsed::Bad(reason) => Parsed::Bad(reason),
    }
}

/// A list of severities does not depend on the tokens in front of it.
proof fn lemma_level_list_moves(front: Seq<TokenView>, t: Seq<TokenView>, at: int)
    requires
        0 <= at,
    ensures
        level_list(front + t, front.len() + at) == moved(level_list(t, at), front.len() as int),
    decreases t.len() - at,
{
    let s = front + t;
    let n = front.len() as int;
    if at < t.len() {
        assert(s[n + at] == t[at]);
        if at + 1 < t.len() {
            assert(s[n + at + 1] == t[at + 1]);
            lemma_level_list_moves(front, t, at + 2);
        }
    }
}

/// A condition does not depend on the tokens in front of it.
proof fn lemma_clause_moves(front: Seq<TokenView>, t: Seq<TokenView>, at: int)
    requires
        0 <= at,
    ensures
        clause(front + t, front.len() + at) == moved(clause(t, at), front.len() as int),
{
    let s = front + t;
    let n = front.len() as int;
    if at + 2 < t.len() {
        assert(s[n + at] == t[at] && s[n + at + 1] == t[at + 1] && s[n + at + 2] == t[at + 2]);
        if at + 3 < t.len() {
            assert(s[n + at + 3] == t[at + 3]);
        }
        if at + 4 < t.len() {
            assert(s[n + at + 4] == t[at + 4]);
        }
        lemma_level_list_moves(front, t, at + 3);
    }
}

/// Conditions do not depend on the tokens in front of them.
proof fn lemma_conditions_move(front: Seq<TokenView>, t: Seq<TokenView>, at: int)
    requires
        0 <= at,
    ensures
        conditions(front + t, front.len() + at) == moved(conditions(t, at), front.len() as int),
    decreases t.len() - at,
{
    let s = front + t;
    let n = front.len() as int;
    lemma_clause_moves(front, t, at);
    if let Parsed::Good(_, next) = clause(t, at) {
        if next < t.len() && next > at {
            assert(s[n + next] == t[next]);
            lemma_conditions_move(front, t, next + 1);
        }
    }
}

/// A list of severities that was read stays so whatever follows.
proof fn lemma_level_list_stays(t: Seq<TokenView>, rest: Seq<TokenView>, at: int)
    requires
        0 <= at,
        level_list(t, at) is Good,
    ensures
        level_list(t + rest, at) == level_list(t, at),
        at < level_list(t, at)->Good_1 <= t.len(),
        t[level_list(t, at)->Good_1 - 1] is RParen,
    decreases t.len() - at,
{
    let s = t + rest;
    assert(at + 1 < t.len());
    assert(s[at] == t[at] && s[at + 1] == t[at + 1]);
    if t[at + 1] is Comma {
        lemma_level_list_stays(t, rest, at + 2);
    }
}

/// A condition that was read stays so whatever follows, and ends in a token of its own.
proof fn lemma_clause_stays(t: Seq<TokenView>, rest: Seq<TokenView>, at: int)
    requires
        0 <= at,
        clause(t, at) is Good,
    ensures
        clause(t + rest, at) == clause(t, at),
        at < clause(t, at)->Good_1 <= t.len(),
        !(t[clause(t, at)->Good_1 - 1] is Unclosed),
{
    let s = t + rest;
    assert(at + 2 < t.len());
    assert(s[at] == t[at] && s[at + 1] == t[at + 1] && s[at + 2] == t[at + 2]);
    if at + 3 < t.len() {
        assert(s[at + 3] == t[at + 3]);
    }
    if at + 4 < t.len() {
        assert(s[at + 4] == t[at + 4]);
    }
    if let TokenView::Word(name) = t[at] {
        if lowered(name) == "level"@ && is_word(t, at + 1, "in"@) {
            lemma_level_list_stays(t, rest, at + 3);
        }
    }
}

/// Conditions that were read reach up to the last token, which is no open quote.
proof fn lemma_conditions_end(t: Seq<TokenView>, at: int)
    requires
        0 <= at,
        conditions(t, at) is Good,
    ensures
        at < conditions(t, at)->Good_1,
        conditions(t, at)->Good_1 == t.len(),
        !(t.last() is Unclosed),
        conditions(t, at)->Good_0.len() > 0,
    decreases t.len() - at,
{
    lemma_clause_stays(t, Seq::empty(), at);
    let next = clause(t, at)->Good_1;
    if next < t.len() {
        lemma_conditions_end(t, next + 1);
    }
}

/// Conditions that are joined by the word for it are those of both sides.
proof fn lemma_conditions_join(a: Seq<TokenView>, b: Seq<TokenView>, at: int)
    requires
        0 <= at,
        conditions(a, at) is Good,
        conditions(b, 0) is Good,
    ensures
        conditions(a + seq![TokenView::Word("and"@)] + b, at) == Parsed::Good(
            conditions(a, at)->Good_0 + conditions(b, 0)->Good_0,
            (a.len() + 1 + b.len()) as int,
        ),
    decreases a.len() - at,
{
    let join = seq![TokenView::Word("and"@)];
    let s = a + join + b;
    assert(s =~= a + (join + b));
    lemma_clause_stays(a, join + b, at);
    lemma_conditions_end(b, 0);
    lemma_words_in_lower_case();
    let next = clause(a, at)->Good_1;
    let filter = clause(a, at)->Good_0;
    let back = conditions(b, 0)->Good_0;
    if next == a.len() {
        assert(s[next] == TokenView::Word("and"@));
        assert(s =~= (a + join) + b);
        lemma_conditions_move(a + join, b, 0);
        assert(conditions(s, next + 1) == Parsed::Good(back, (a.len() + 1 + b.len()) as int));
        assert(conditions(a, at)->Good_0 == seq![filter]);
    } else {
        assert(s[next] == a[next]);
        lemma_conditions_join(a, b, next + 1);
        let rest = conditions(a, next + 1)->Good_0;
        assert(seq![filter] + (rest + back) =~= (seq![filter] + rest) + back);
    }
}

/// The text is a query that can be read, without whitespace around it.
pub open spec fn is_condition(text: Seq<char>) -> bool {
    &&& text.len() > 0
    &&& !is_white(text[0])
    &&& !is_white(text.last())
    &&& is_query(tokens_from(text, 0))
    &&& text_filter(text) is Ok
}

/// The filters of the conditions of a query.
spec fn filters_of(text: Seq<char>) -> Seq<FilterView> {
    conditions(tokens_from(text, 0), 0)->Good_0
}

/// A text without whitespace around it is as it is trimmed.
proof fn lemma_nothing_to_trim(text: Seq<char>)
    requires
        text.len() > 0,
        !is_white(text[0]),
        !is_white(text.last()),
    ensures
        trimmed(text) == text,
{
}

/// A query that can be read stands for all of its conditions.
proof fn lemma_query_is_its_conditions(text: Seq<char>)
    requires
        is_condition(text),
    ensures
        conditions(tokens_from(text, 0), 0) is Good,
        filters_of(text).len() > 0,
        text_filter(text) == Ok::<FilterView, Seq<char>>(all_of(filters_of(text))),
{
    lemma_nothing_to_trim(text);
    lemma_conditions_end(tokens_from(text, 0), 0);
}

/// Two queries joined by ` and ` are one query with the conditions of both.
proof fn lemma_queries_join(a: Seq<char>, b: Seq<char>)
    requires
        is_condition(a),
        is_condition(b),
    ensures
        is_condition(a + " and "@ + b),
        filters_of(a + " and "@ + b) == filters_of(a) + filters_of(b),
{
    lemma_query_is_its_conditions(a);
    lemma_query_is_its_conditions(b);
    let ta = tokens_from(a, 0);
    let tb = tokens_from(b, 0);
    lemma_conditions_end(ta, 0);
    lemma_conditions_end(tb, 0);
    reveal_strlit(" and ");
    reveal_strlit("and");
    let rest = " and "@ + b;
    let s = a + " and "@ + b;
    let word = "and"@;
    assert(s =~= a + rest);
    assert(rest =~= seq![' '] + (word + (seq![' '] + b)));
    assert(rest[0] == ' ');
    lemma_tokens_stay(a, rest, 0);
    lemma_tokens_move(a, rest, 0);
    lemma_space_makes_no_token(word + (seq![' '] + b));
    assert forall|i: int| 0 <= i < word.len() implies is_word_char(#[trigger] word[i]) by {}
    assert((seq![' '] + b)[0] == ' ');
    lemma_word_is_a_token(word, seq![' '] + b);
    lemma_space_makes_no_token(b);
    assert(tokens_from(s, 0) =~= ta + seq![TokenView::Word("and"@)] + tb);
    lemma_conditions_join(ta, tb, 0);
    let t = tokens_from(s, 0);
    assert(t[0] == ta[0] && t[1] == ta[1]);
    assert(s[0] == a[0]);
    assert(s.last() == b.last());
    lemma_nothing_to_trim(s);
}

/// Conditions joined by ` and ` are one query, and it accepts exactly the rows that every one of
/// the conditions, read by itself, accepts.
pub proof fn law_joined_conditions_all_apply(parts: Seq<Seq<char>>, row: RowView)
    requires
        parts.len() > 0,
        forall|i: int| 0 <= i < parts.len() ==> is_condition(#[trigger] parts[i]),
    ensures
        is_condition(joined_by(parts, " and "@)),
        text_filter(joined_by(parts, " and "@))->Ok_0.accepts(row) == forall|i: int|
            0 <= i < parts.len() ==> text_filter(#[trigger] parts[i])->Ok_0.accepts(row),
    decreases parts.len(),
{
    let last = parts.last();
    let whole = joined_by(parts, " and "@);
    assert(is_condition(parts[parts.len() - 1]));
    if parts.len() == 1 {
        assert(parts[0] == last);
        if text_filter(last)->Ok_0.accepts(row) {
            assert forall|i: int| 0 <= i < parts.len() implies text_filter(
                #[trigger] parts[i],
            )->Ok_0.accepts(row) by {
                assert(i == 0);
            }
        }
    } else {
        let head = parts.drop_last();
        let front = joined_by(head, " and "@);
        assert forall|i: int| 0 <= i < head.len() implies is_condition(#[trigger] head[i]) by {
            assert(head[i] == parts[i]);
        }
        law_joined_conditions_all_apply(head, row);
        lemma_queries_join(front, last);
        lemma_query_is_its_conditions(front);
        lemma_query_is_its_conditions(last);
        lemma_query_is_its_conditions(whole);
        law_all_of(filters_of(front), row);
        law_all_of(filters_of(last), row);
        law_all_of(filters_of(whole), row);
        lemma_all_of_both(filters_of(front), filters_of(last), row);
        let each = forall|i: int|
            0 <= i < parts.len() ==> text_filter(#[trigger] parts[i])->Ok_0.accepts(row);
        let each_before = forall|i: int|
            0 <= i < head.len() ==> text_filter(#[trigger] head[i])->Ok_0.accepts(row);
        if each_before && text_filter(last)->Ok_0.accepts(row) {
            assert forall|i: int| 0 <= i < parts.len() implies text_filter(
                #[trigger] parts[i],
            )->Ok_0.accepts(row) by {
                if i < head.len() {
                    assert(parts[i] == head[i]);
                } else {
                    assert(parts[i] == last);
                }
            }
        }
        if each {
            assert forall|i: int| 0 <= i < head.len() implies text_filter(
                #[trigger] head[i],
            )->Ok_0.accepts(row) by {
                assert(head[i] == parts[i]);
            }
            assert(text_filter(parts[parts.len() - 1])->Ok_0.accepts(row));
        }
    }
}

/// All of two lists accept a row where all of each do.
proof fn lemma_all_of_both(a: Seq<FilterView>, b: Seq<FilterView>, row: RowView)
    ensures
        all_accept(a + b, row) == (all_accept(a, row) && all_accept(b, row)),
{
    let all = a + b;
    if all_accept(all, row) {
        assert forall|i: int| 0 <= i < a.len() implies (#[trigger] a[i]).accepts(row) by {
            assert(all[i] == a[i]);
        }
        assert forall|i: int| 0 <= i < b.len() implies (#[trigger] b[i]).accepts(row) by {
            assert(all[a.len() + i] == b[i]);
        }
    }
    if all_accept(a, row) && all_accept(b, row) {
        assert forall|i: int| 0 <= i < all.len() implies (#[trigger] all[i]).accepts(row) by {
            if i < a.len() {
                assert(all[i] == a[i]);
            } else {
                assert(all[i] == b[i - a.len()]);
            }
        }
    }
}

/// A comparison as it is written: a name, an operator and a value, with spaces between them.
pub open spec fn comparison(name: Seq<char>, operator: Seq<char>, value: Seq<char>) -> Seq<char> {
    name + " "@ + operator + " "@ + value
}

/// A text without whitespace and without the characters that queries give a meaning.
pub open spec fn is_plain_word(text: Seq<char>) -> bool {
    text.len() > 0 && forall|i: int| 0 <= i < text.len() ==> is_word_char(#[trigger] text[i])
}

/// A text that can be put in quotes.
pub open spec fn has_no_quote(text: Seq<char>) -> bool {
    forall|i: int| 0 <= i < text.len() ==> #[trigger] text[i] != '"'
}

/// A word at the end is a token.
proof fn lemma_last_word(word: Seq<char>)
    requires
        is_plain_word(word),
    ensures
        tokens_from(word, 0) == seq![TokenView::Word(word)],
        !is_white(word[0]),
        !is_white(word.last()),
{
    let none = Seq::<char>::empty();
    lemma_word_is_a_token(word, none);
    assert(word + none =~= word);
    assert(tokens_from(none, 0) =~= Seq::<TokenView>::empty());
    assert(tokens_from(word, 0) =~= seq![TokenView::Word(word)]);
    assert(is_word_char(word[0]) && is_word_char(word[word.len() - 1]));
}

/// A text in quotes at the end is a token.
proof fn lemma_last_quoted(text: Seq<char>)
    requires
        has_no_quote(text),
    ensures
        tokens_from(quoted(text), 0) == seq![TokenView::Quoted(text)],
        quoted(text).last() == '"',
{
    let none = Seq::<char>::empty();
    lemma_quoted_is_a_token(text, none);
    assert(quoted(text) + none =~= quoted(text));
    assert(tokens_from(none, 0) =~= Seq::<TokenView>::empty());
    assert(tokens_from(quoted(text), 0) =~= seq![TokenView::Quoted(text)]);
}

/// The tokens of a comparison with an operator made of signs.
proof fn lemma_comparison_tokens(
    name: Seq<char>,
    operator: TokenView,
    value: Seq<char>,
    token: TokenView,
)
    requires
        is_plain_word(name),
        is_comparison(operator),
        value.len() > 0,
        !is_white(value.last()),
        tokens_from(value, 0) == seq![token],
    ensures
        ({
            let text = comparison(name, operator_text(operator), value);
            &&& tokens_from(text, 0) == seq![TokenView::Word(name), operator, token]
            &&& text.len() > 0 && !is_white(text[0]) && !is_white(text.last())
            &&& trimmed(text) == text
        }),
{
    reveal_strlit(" ");
    let o = operator_text(operator);
    let text = comparison(name, o, value);
    let end = seq![' '] + value;
    let middle = seq![' '] + (o + end);
    assert(text =~= name + middle);
    assert(middle[0] == ' ' && end[0] == ' ');
    lemma_word_is_a_token(name, middle);
    lemma_space_makes_no_token(o + end);
    lemma_operator_is_a_token(operator, end);
    lemma_space_makes_no_token(value);
    assert(tokens_from(text, 0) =~= seq![TokenView::Word(name), operator, token]);
    assert(text[0] == name[0] && is_word_char(name[0]));
    assert(text.last() == value.last());
    lemma_nothing_to_trim(text);
}

/// The tokens of a comparison with an operator that is a word.
proof fn lemma_word_comparison_tokens(name: Seq<char>, operator: Seq<char>, value: Seq<char>)
    requires
        is_plain_word(name),
        is_plain_word(operator),
        value.len() > 0,
        !is_white(value.last()),
    ensures
        ({
            let text = comparison(name, operator, value);
            &&& tokens_from(text, 0) == seq![TokenView::Word(name), TokenView::Word(operator)]
                + tokens_from(value, 0)
            &&& text.len() > 0 && !is_white(text[0]) && !is_white(text.last())
            &&& trimmed(text) == text
        }),
{
    reveal_strlit(" ");
    let text = comparison(name, operator, value);
    let end = seq![' '] + value;
    let middle = seq![' '] + (operator + end);
    assert(text =~= name + middle);
    assert(middle[0] == ' ' && end[0] == ' ');
    lemma_word_is_a_token(name, middle);
    lemma_space_makes_no_token(operator + end);
    lemma_word_is_a_token(operator, end);
    lemma_space_makes_no_token(value);
    assert(tokens_from(text, 0) =~= seq![TokenView::Word(name), TokenView::Word(operator)]
        + tokens_from(value, 0));
    assert(text[0] == name[0] && is_word_char(name[0]));
    assert(text.last() == value.last());
    lemma_nothing_to_trim(text);
}

/// The names and operators of the language are words.
proof fn lemma_words_are_plain()
    ensures
        is_plain_word("level"@),
        is_plain_word("message"@),
        is_plain_word("source"@),
        is_plain_word("timestamp"@),
        is_plain_word("in"@),
        is_plain_word("contains"@),
        is_plain_word("between"@),
        is_plain_word("and"@),
{
    reveal_strlit("level");
    reveal_strlit("message");
    reveal_strlit("source");
    reveal_strlit("timestamp");
    reveal_strlit("in");
    reveal_strlit("contains");
    reveal_strlit("between");
    reveal_strlit("and");
}

/// The names of the language differ.
proof fn lemma_names_differ()
    ensures
        "level"@ != "message"@,
        "level"@ != "source"@,
        "level"@ != "timestamp"@,
        "message"@ != "source"@,
        "message"@ != "timestamp"@,
        "source"@ != "timestamp"@,
        "in"@ != "contains"@,
        "in"@ != "between"@,
        "contains"@ != "between"@,
{
    reveal_strlit("level");
    reveal_strlit("message");
    reveal_strlit("source");
    reveal_strlit("timestamp");
    reveal_strlit("in");
    reveal_strlit("contains");
    reveal_strlit("between");
    assert("level"@.len() == 5 && "message"@.len() == 7 && "source"@.len() == 6);
    assert("timestamp"@.len() == 9 && "in"@.len() == 2 && "contains"@.len() == 8);
    assert("between"@.len() == 7);
}

/// A single condition is the query itself.
proof fn lemma_single_condition(text: Seq<char>, filter: FilterView)
    requires
        text.len() > 0,
        trimmed(text) == text,
        !is_white(text[0]),
        !is_white(text.last()),
        is_query(tokens_from(text, 0)),
        clause(tokens_from(text, 0), 0) == Parsed::Good(filter, tokens_from(text, 0).len() as int),
    ensures
        is_condition(text),
        text_filter(text) == Ok::<FilterView, Seq<char>>(filter),
{
    let t = tokens_from(text, 0);
    assert(conditions(t, 0) == Parsed::Good(seq![filter], t.len() as int));
    assert(all_of(seq![filter]) == filter);
}

/// How two places compare under an operator.
pub open spec fn places_compare(operator: TokenView, a: int, b: int) -> bool {
    match operator {
        TokenView::Eq => a == b,
        TokenView::NotEq => a != b,
        TokenView::Gte => a >= b,
        TokenView::Gt => a > b,
        TokenView::Lte => a <= b,
        TokenView::Lt => a < b,
        _ => false,
    }
}

/// A query such as `level >= warn` accepts exactly the rows whose severity compares so with the one
/// that is named, from trace up to fatal; a row without a severity only where it must differ.
pub proof fn law_level_query(operator: TokenView, word: Seq<char>, level: LogLevel, row: RowView)
    requires
        is_comparison(operator),
        is_plain_word(word),
        level_named(word) == Some(level),
        !(operator is Gt && level == LogLevel::Fatal),
    ensures
        ({
            let text = comparison("level"@, operator_text(operator), word);
            &&& is_condition(text)
            &&& text_filter(text)->Ok_0.accepts(row) == match row.level {
                Some(found) => places_compare(operator, level_place(found), level_place(level)),
                None => operator is NotEq,
            }
        }),
{
    let text = comparison("level"@, operator_text(operator), word);
    lemma_words_are_plain();
    lemma_words_in_lower_case();
    lemma_last_word(word);
    lemma_comparison_tokens("level"@, operator, word, TokenView::Word(word));
    let t = tokens_from(text, 0);
    assert(!is_word(t, 1, "in"@));
    law_level_comparisons(operator, level, 3, row);
    lemma_single_condition(text, level_condition(operator, level, 3)->Good_0);
}

/// A query such as `message contains "timeout"` accepts exactly the rows whose message contains
/// the text, the case of ASCII letters disregarded.
pub proof fn law_message_query(text: Seq<char>, row: RowView)
    requires
        has_no_quote(text),
    ensures
        ({
            let query = comparison("message"@, "contains"@, quoted(text));
            &&& is_condition(query)
            &&& text_filter(query)->Ok_0.accepts(row) == stands_in(
                lowered(row.message),
                lowered(text),
            )
        }),
{
    let query = comparison("message"@, "contains"@, quoted(text));
    lemma_words_are_plain();
    lemma_words_in_lower_case();
    lemma_names_differ();
    lemma_last_quoted(text);
    lemma_word_comparison_tokens("message"@, "contains"@, quoted(text));
    let t = tokens_from(query, 0);
    assert(t =~= seq![
        TokenView::Word("message"@),
        TokenView::Word("contains"@),
        TokenView::Quoted(text),
    ]);
    assert(is_word(t, 1, "contains"@));
    lemma_single_condition(query, FilterView::Contains(text));
    lemma_containing_is_standing_in(lowered(row.message), lowered(text));
}

/// The name is one of a field, not one with a meaning of its own.
pub open spec fn names_a_field(name: Seq<char>) -> bool {
    &&& is_plain_word(name)
    &&& lowered(name) != "level"@
    &&& lowered(name) != "message"@
    &&& lowered(name) != "source"@
    &&& lowered(name) != "timestamp"@
}

/// A query such as `service = "billing"` accepts exactly the rows that have a field of that name
/// with that value, written as a JSON string or as it is; with `!=` it accepts the others. A name
/// such as `json.userId` is that of the field `userId`.
pub proof fn law_field_query(name: Seq<char>, field: Seq<char>, value: Seq<char>, row: RowView)
    requires
        names_a_field(name),
        name == "json."@ + field || (name == field && !begins_with(name, "json."@)),
        has_no_quote(value),
    ensures
        ({
            let equal = comparison(name, "="@, quoted(value));
            let other = comparison(name, "!="@, quoted(value));
            let has = match field_value(row.fields, field) {
                Some(found) => found == value || found == quoted(value),
                None => false,
            };
            &&& is_condition(equal) && is_condition(other)
            &&& text_filter(equal)->Ok_0.accepts(row) == has
            &&& text_filter(other)->Ok_0.accepts(row) == !has
        }),
{
    let token = TokenView::Quoted(value);
    lemma_last_quoted(value);
    lemma_comparison_tokens(name, TokenView::Eq, quoted(value), token);
    lemma_comparison_tokens(name, TokenView::NotEq, quoted(value), token);
    let equal = comparison(name, "="@, quoted(value));
    let other = comparison(name, "!="@, quoted(value));
    assert(operator_text(TokenView::Eq) == "="@);
    assert(operator_text(TokenView::NotEq) == "!="@);
    lemma_field_names(name, field);
    let filter = FilterView::FieldEquals(field, value);
    lemma_single_condition(equal, filter);
    lemma_single_condition(other, FilterView::Not(Box::new(filter)));
    if let Some(found) = field_value(row.fields, field) {
        lemma_values_without_quotes(found, value);
    }
    assert(FilterView::Not(Box::new(filter)).accepts(row) == !filter.accepts(row));
}

/// The name of a field with and without its prefix.
proof fn lemma_field_names(name: Seq<char>, field: Seq<char>)
    requires
        name == "json."@ + field || (name == field && !begins_with(name, "json."@)),
    ensures
        field_name(name) == field,
{
    if name == "json."@ + field {
        assert(name.subrange(0, "json."@.len() as int) =~= "json."@);
        assert(name.subrange("json."@.len() as int, name.len() as int) =~= field);
    } else if begins_with(name, "json."@) {
        assert(false);
    }
}

/// A value is that of a field, where the field holds it as it is or in quotes.
proof fn lemma_values_without_quotes(found: Seq<char>, value: Seq<char>)
    requires
        has_no_quote(value),
    ensures
        (plain_value(found) == value) == (found == value || found == quoted(value)),
{
    let q = quoted(value);
    assert(q[0] == '"' && q.last() == '"');
    assert(q.subrange(1, q.len() - 1) =~= value);
    if found.len() >= 2 && found[0] == '"' && found.last() == '"' {
        assert(found =~= quoted(found.subrange(1, found.len() - 1)));
        if found == value {
            assert(value[0] != '"');
        }
    }
}

/// A query such as `json.path contains "api"` accepts exactly the rows that have a field of that
/// name whose value contains the text, the case of ASCII letters disregarded.
pub proof fn law_field_text_query(field: Seq<char>, text: Seq<char>, row: RowView)
    requires
        names_a_field("json."@ + field),
        has_no_quote(text),
    ensures
        ({
            let query = comparison("json."@ + field, "contains"@, quoted(text));
            &&& is_condition(query)
            &&& text_filter(query)->Ok_0.accepts(row) == match field_value(row.fields, field) {
                Some(found) => stands_in(
                    lowered(
                        if found.len() >= 2 && found[0] == '"' && found.last() == '"' {
                            found.subrange(1, found.len() - 1)
                        } else {
                            found
                        },
                    ),
                    lowered(text),
                ),
                None => false,
            }
        }),
{
    let name = "json."@ + field;
    let query = comparison(name, "contains"@, quoted(text));
    lemma_words_are_plain();
    lemma_words_in_lower_case();
    lemma_last_quoted(text);
    lemma_word_comparison_tokens(name, "contains"@, quoted(text));
    let t = tokens_from(query, 0);
    assert(t =~= seq![
        TokenView::Word(name),
        TokenView::Word("contains"@),
        TokenView::Quoted(text),
    ]);
    assert(is_word(t, 1, "contains"@));
    assert(name.subrange(0, "json."@.len() as int) =~= "json."@);
    lemma_field_names(name, field);
    lemma_single_condition(query, FilterView::FieldContains(field, text));
    if let Some(found) = field_value(row.fields, field) {
        lemma_containing_is_standing_in(lowered(plain_value(found)), lowered(text));
    }
}

/// To contain a text is to hold its characters in a row.
proof fn lemma_containing_is_standing_in(hay: Seq<char>, needle: Seq<char>)
    ensures
        contains(hay, needle) == stands_in(hay, needle),
{
    if stands_in(hay, needle) {
        let at = choose|at: int| stands_from(hay, needle, at);
        assert(hay.subrange(at, at + needle.len()) =~= needle);
        assert(occurs_at(hay, needle, at));
    }
    if contains(hay, needle) {
        let at = choose|at: int| occurs_at(hay, needle, at);
        assert forall|k: int| 0 <= k < needle.len() implies hay[at + k] == #[trigger] needle[k] by {
            assert(hay.subrange(at, at + needle.len())[k] == hay[at + k]);
        }
        assert(stands_from(hay, needle, at));
    }
}

/// A number in decimal is made of digits and is read back as that number.
pub proof fn law_decimal_numbers_are_read_back(n: nat)
    ensures
        decimal(n).len() > 0,
        all_digits(decimal(n)),
        digits_value(decimal(n)) == n,
        n > 0 ==> decimal(n)[0] != '0',
        n <= u64::MAX ==> source_named(decimal(n)) == Some(SourceId(n as u64)),
    decreases n,
{
    let text = decimal(n);
    if n < 10 {
        assert(text.drop_last() =~= Seq::<char>::empty());
        assert(digits_value(text.drop_last()) == 0);
    } else {
        law_decimal_numbers_are_read_back(n / 10);
        let head = decimal(n / 10);
        assert(text.drop_last() =~= head);
        assert(text[0] == head[0]);
        assert forall|i: int| 0 <= i < text.len() implies '0' <= #[trigger] text[i] && text[i]
            <= '9' by {
            if i < head.len() {
                assert(text[i] == head[i]);
            }
        }
    }
}

/// A query such as `source = 1` accepts exactly the rows of that source, and with `!=` the others.
pub proof fn law_source_query(n: u64, row: RowView)
    ensures
        ({
            let equal = comparison("source"@, "="@, decimal(n as nat));
            let other = comparison("source"@, "!="@, decimal(n as nat));
            &&& is_condition(equal) && is_condition(other)
            &&& text_filter(equal)->Ok_0.accepts(row) == (row.source_id.0 == n)
            &&& text_filter(other)->Ok_0.accepts(row) == (row.source_id.0 != n)
        }),
{
    let number = decimal(n as nat);
    law_decimal_numbers_are_read_back(n as nat);
    assert forall|i: int| 0 <= i < number.len() implies is_word_char(#[trigger] number[i]) by {
        assert('0' <= number[i] && number[i] <= '9');
    }
    lemma_words_are_plain();
    lemma_words_in_lower_case();
    lemma_names_differ();
    lemma_last_word(number);
    let token = TokenView::Word(number);
    assert(operator_text(TokenView::Eq) == "="@);
    assert(operator_text(TokenView::NotEq) == "!="@);
    lemma_comparison_tokens("source"@, TokenView::Eq, number, token);
    lemma_comparison_tokens("source"@, TokenView::NotEq, number, token);
    let filter = FilterView::Source(SourceId(n));
    lemma_single_condition(comparison("source"@, "="@, number), filter);
    lemma_single_condition(
        comparison("source"@, "!="@, number),
        FilterView::Not(Box::new(filter)),
    );
    assert(FilterView::Not(Box::new(filter)).accepts(row) == !filter.accepts(row));
}

/// How two points in time compare under an operator: by their seconds, and within a second by
/// their nanoseconds.
pub open spec fn parts_compare(operator: TokenView, a: Timestamp, b: Timestamp) -> bool {
    let less = a.secs() < b.secs() || (a.secs() == b.secs() && a.nanos() < b.nanos());
    let same = a.secs() == b.secs() && a.nanos() == b.nanos();
    match operator {
        TokenView::Eq => same,
        TokenView::NotEq => !same,
        TokenView::Gte => !less,
        TokenView::Gt => !less && !same,
        TokenView::Lte => less || same,
        TokenView::Lt => less,
        _ => false,
    }
}

/// A query such as `timestamp >= "2026-05-21T09:00:00Z"` accepts exactly the rows whose timestamp
/// compares so with the point in time, to the nanosecond; a row without a timestamp only where it
/// must differ.
pub proof fn law_timestamp_query(
    operator: TokenView,
    text: Seq<char>,
    secs: i64,
    nanos: u32,
    row: RowView,
)
    requires
        is_comparison(operator),
        has_no_quote(text),
        chrono_reading(text) == Some((secs, nanos)),
    ensures
        ({
            let query = comparison("timestamp"@, operator_text(operator), quoted(text));
            &&& is_condition(query)
            &&& text_filter(query)->Ok_0.accepts(row) == match row.timestamp {
                Some(found) => parts_compare(operator, found, timestamp_at(secs, nanos)),
                None => operator is NotEq,
            }
        }),
{
    let query = comparison("timestamp"@, operator_text(operator), quoted(text));
    let time = timestamp_at(secs, nanos);
    lemma_words_are_plain();
    lemma_words_in_lower_case();
    lemma_names_differ();
    lemma_last_quoted(text);
    lemma_comparison_tokens("timestamp"@, operator, quoted(text), TokenView::Quoted(text));
    law_timestamp_comparisons(operator, time, 3, row);
    let t = tokens_from(query, 0);
    assert(!is_word(t, 1, "between"@));
    lemma_single_condition(query, timestamp_condition(operator, time, 3)->Good_0);
    if let Some(found) = row.timestamp {
        if found.secs() == time.secs() && found.nanos() == time.nanos() {
            lemma_timestamp_is_its_parts(found, time);
        }
    }
}

/// A query such as `timestamp between "a" and "b"` accepts exactly the rows with a timestamp that is
/// not before the one and not after the other, to the nanosecond.
pub proof fn law_timestamp_range_query(
    from: Seq<char>,
    to: Seq<char>,
    first: (i64, u32),
    last: (i64, u32),
    row: RowView,
)
    requires
        has_no_quote(from),
        has_no_quote(to),
        chrono_reading(from) == Some(first),
        chrono_reading(to) == Some(last),
    ensures
        ({
            let query = comparison(
                "timestamp"@,
                "between"@,
                quoted(from) + " and "@ + quoted(to),
            );
            &&& is_condition(query)
            &&& text_filter(query)->Ok_0.accepts(row) == match row.timestamp {
                Some(found) => {
                    &&& found.secs() > first.0 || (found.secs() == first.0 && found.nanos()
                        >= first.1)
                    &&& found.secs() < last.0 || (found.secs() == last.0 && found.nanos() <= last.1)
                },
                None => false,
            }
        }),
{
    reveal_strlit(" and ");
    reveal_strlit("and");
    lemma_words_are_plain();
    lemma_words_in_lower_case();
    lemma_names_differ();
    let value = quoted(from) + " and "@ + quoted(to);
    let query = comparison("timestamp"@, "between"@, value);
    let end = seq![' '] + quoted(to);
    let middle = seq![' '] + ("and"@ + end);
    assert(value =~= quoted(from) + middle);
    lemma_quoted_is_a_token(from, middle);
    lemma_space_makes_no_token("and"@ + end);
    assert(end[0] == ' ');
    lemma_word_is_a_token("and"@, end);
    lemma_space_makes_no_token(quoted(to));
    lemma_last_quoted(to);
    assert(value.last() == '"');
    lemma_word_comparison_tokens("timestamp"@, "between"@, value);
    let t = tokens_from(query, 0);
    assert(t =~= seq![
        TokenView::Word("timestamp"@),
        TokenView::Word("between"@),
        TokenView::Quoted(from),
        TokenView::Word("and"@),
        TokenView::Quoted(to),
    ]);
    assert(is_word(t, 1, "between"@));
    assert(is_word(t, 3, "and"@));
    lemma_timestamp_has_its_parts(first.0, first.1);
    lemma_timestamp_has_its_parts(last.0, last.1);
    lemma_single_condition(
        query,
        FilterView::TimestampBetween(
            timestamp_at(first.0, first.1),
            timestamp_at(last.0, last.1),
        ),
    );
}

/// A query such as `level in (warn, error)` accepts exactly the rows that have one of the severities
/// that are named.
pub proof fn law_level_list_query(words: Seq<Seq<char>>, row: RowView)
    requires
        words.len() > 0,
        forall|i: int|
            0 <= i < words.len() ==> is_plain_word(#[trigger] words[i]) && level_named(words[i])
                is Some,
    ensures
        ({
            let query = comparison("level"@, "in"@, "("@ + joined_by(words, ", "@) + ")"@);
            &&& is_condition(query)
            &&& text_filter(query)->Ok_0.accepts(row) == exists|i: int|
                0 <= i < words.len() && row.level == level_named(#[trigger] words[i])
        }),
{
    reveal_strlit("(");
    reveal_strlit(")");
    lemma_words_are_plain();
    lemma_words_in_lower_case();
    let list = joined_by(words, ", "@);
    let value = "("@ + list + ")"@;
    let query = comparison("level"@, "in"@, value);
    let close = seq![')'];
    let none = Seq::<char>::empty();
    assert(value =~= seq!['('] + (list + close));
    assert(value.last() == ')');
    assert(value[0] == '(');
    lemma_tokens_move(seq!['('], list + close, 0);
    assert(token_at(value, 0) == (Some(TokenView::LParen), 1int));
    assert(tokens_from(value, 0) == seq![TokenView::LParen] + tokens_from(list + close, 0));
    lemma_list_tokens(words, close);
    assert(close[0] == ')');
    lemma_tokens_move(close, none, 0);
    assert(close + none =~= close);
    assert(tokens_from(none, 0) =~= Seq::<TokenView>::empty());
    assert(token_at(close, 0) == (Some(TokenView::RParen), 1int));
    assert(tokens_from(close, 0) =~= seq![TokenView::RParen]);
    lemma_word_comparison_tokens("level"@, "in"@, value);
    let t = tokens_from(query, 0);
    let front = seq![TokenView::Word("level"@), TokenView::Word("in"@), TokenView::LParen];
    let tail = list_tokens(words) + seq![TokenView::RParen];
    assert(t =~= front + tail);
    assert(t[0] == TokenView::Word("level"@) && t[1] == TokenView::Word("in"@) && t[2]
        == TokenView::LParen);
    lemma_level_list_moves(front, tail, 0);
    lemma_list_is_read(words, 0);
    assert(words.subrange(0, words.len() as int) =~= words);
    lemma_list_token_count(words);
    assert(is_word(t, 1, "in"@));
    let filter = FilterView::Or(level_filters(words));
    lemma_single_condition(query, filter);
    law_compositions(level_filters(words), row);
    let filters = level_filters(words);
    if some_accepts(filters, row) {
        let i = choose|i: int| 0 <= i < filters.len() && (#[trigger] filters[i]).accepts(row);
        assert(row.level == level_named(words[i]));
    }
    if exists|i: int| 0 <= i < words.len() && row.level == level_named(#[trigger] words[i]) {
        let i = choose|i: int| 0 <= i < words.len() && row.level == level_named(#[trigger] words[i]);
        assert(filters[i].accepts(row));
    }
}

/// The tokens of words with commas between them.
spec fn list_tokens(words: Seq<Seq<char>>) -> Seq<TokenView>
    decreases words.len(),
{
    if words.len() == 0 {
        Seq::empty()
    } else if words.len() == 1 {
        seq![TokenView::Word(words[0])]
    } else {
        list_tokens(words.drop_last()) + seq![TokenView::Comma, TokenView::Word(words.last())]
    }
}

/// The filters of the severities that are named.
spec fn level_filters(words: Seq<Seq<char>>) -> Seq<FilterView> {
    Seq::new(words.len(), |i: int| FilterView::LevelEquals(level_named(words[i])->0))
}

/// How many tokens words with commas between them make.
proof fn lemma_list_token_count(words: Seq<Seq<char>>)
    requires
        words.len() > 0,
    ensures
        list_tokens(words).len() == 2 * words.len() - 1,
    decreases words.len(),
{
    if words.len() > 1 {
        lemma_list_token_count(words.drop_last());
    }
}

/// The tokens of a list of words as it is written.
proof fn lemma_list_tokens(words: Seq<Seq<char>>, rest: Seq<char>)
    requires
        words.len() > 0,
        forall|i: int| 0 <= i < words.len() ==> is_plain_word(#[trigger] words[i]),
        rest.len() > 0 ==> !is_word_char(rest[0]),
    ensures
        tokens_from(joined_by(words, ", "@) + rest, 0) == list_tokens(words) + tokens_from(rest, 0),
    decreases words.len(),
{
    reveal_strlit(", ");
    let last = words.last();
    assert(is_plain_word(words[words.len() - 1]));
    if words.len() == 1 {
        lemma_word_is_a_token(words[0], rest);
    } else {
        let head = words.drop_last();
        assert forall|i: int| 0 <= i < head.len() implies is_plain_word(#[trigger] head[i]) by {
            assert(head[i] == words[i]);
        }
        let after = seq![' '] + (last + rest);
        let end = seq![','] + after;
        assert(joined_by(words, ", "@) + rest =~= joined_by(head, ", "@) + end);
        assert(end[0] == ',');
        lemma_list_tokens(head, end);
        lemma_tokens_move(seq![','], after, 0);
        assert(token_at(end, 0) == (Some(TokenView::Comma), 1int));
        lemma_space_makes_no_token(last + rest);
        lemma_word_is_a_token(last, rest);
        assert(tokens_from(end, 0) =~= seq![TokenView::Comma, TokenView::Word(last)] + tokens_from(
            rest,
            0,
        ));
        assert(list_tokens(head) + (seq![TokenView::Comma, TokenView::Word(last)] + tokens_from(
            rest,
            0,
        )) =~= list_tokens(words) + tokens_from(rest, 0));
    }
}

/// The token at each place of a list.
proof fn lemma_list_token_at(words: Seq<Seq<char>>, i: int)
    requires
        0 <= i < words.len(),
    ensures
        list_tokens(words).len() == 2 * words.len() - 1,
        list_tokens(words)[2 * i] == TokenView::Word(words[i]),
        i + 1 < words.len() ==> list_tokens(words)[2 * i + 1] is Comma,
    decreases words.len(),
{
    lemma_list_token_count(words);
    if words.len() > 1 {
        let head = words.drop_last();
        lemma_list_token_count(head);
        if i < head.len() {
            lemma_list_token_at(head, i);
            assert(head[i] == words[i]);
        }
    }
}

/// A list of severities is read to its end.
proof fn lemma_list_is_read(words: Seq<Seq<char>>, i: int)
    requires
        0 <= i < words.len(),
        forall|k: int|
            0 <= k < words.len() ==> is_plain_word(#[trigger] words[k]) && level_named(words[k])
                is Some,
    ensures
        level_list(list_tokens(words) + seq![TokenView::RParen], 2 * i) == Parsed::Good(
            level_filters(words.subrange(i, words.len() as int)),
            2 * words.len() as int,
        ),
    decreases words.len() - i,
{
    let t = list_tokens(words) + seq![TokenView::RParen];
    let rest = words.subrange(i, words.len() as int);
    lemma_list_token_at(words, i);
    assert(t[2 * i] == TokenView::Word(words[i]));
    assert(level_named(words[i]) is Some);
    let one = seq![FilterView::LevelEquals(level_named(words[i])->0)];
    if i + 1 < words.len() {
        assert(t[2 * i + 1] is Comma);
        lemma_list_is_read(words, i + 1);
        let others = words.subrange(i + 1, words.len() as int);
        assert(level_filters(rest) =~= one + level_filters(others));
    } else {
        assert(t[2 * i + 1] is RParen);
        assert(level_filters(rest) =~= one);
    }
}

/// A text without the signs of comparison is no query, unless it begins with one of the names and
/// operators that are words: it is looked for in the raw line, the case of ASCII letters
/// disregarded.
pub proof fn law_text_without_operators_is_searched_for(text: Seq<char>, row: RowView)
    requires
        text.len() > 0,
        !is_white(text[0]),
        !is_white(text.last()),
        forall|i: int|
            0 <= i < text.len() ==> #[trigger] text[i] != '=' && text[i] != '!' && text[i] != '<'
                && text[i] != '>',
        ({
            let first = text.subrange(0, word_end(text, 0));
            &&& lowered(first) != "level"@
            &&& lowered(first) != "timestamp"@
            &&& lowered(first) != "message"@
            &&& !begins_with(first, "json."@)
        }),
    ensures
        text_filter(text) is Ok,
        text_filter(text)->Ok_0.accepts(row) == stands_in(lowered(row.raw), lowered(text)),
{
    lemma_nothing_to_trim(text);
    let t = tokens_from(text, 0);
    lemma_signs_make_comparisons(text, 0);
    lemma_token_end(text, 0);
    if t.len() >= 2 && t[0] is Word {
        assert(!is_comparison(t[1]));
        let (token, end) = token_at(text, 0);
        assert(t[0] == token->0);
        assert(text[0] != '!');
        assert(t[0] == TokenView::Word(text.subrange(0, word_end(text, 0))));
    }
    assert(!is_query(t));
    lemma_containing_is_standing_in(lowered(row.raw), lowered(text));
}

/// Only the signs of comparison make tokens that compare.
proof fn lemma_signs_make_comparisons(text: Seq<char>, at: int)
    requires
        0 <= at <= text.len(),
        forall|i: int|
            0 <= i < text.len() ==> #[trigger] text[i] != '=' && text[i] != '!' && text[i] != '<'
                && text[i] != '>',
    ensures
        forall|i: int|
            0 <= i < tokens_from(text, at).len() ==> !is_comparison(
                #[trigger] tokens_from(text, at)[i],
            ),
    decreases text.len() - at,
{
    if at < text.len() {
        lemma_token_end(text, at);
        let (token, end) = token_at(text, at);
        lemma_signs_make_comparisons(text, end);
        let t = tokens_from(text, at);
        let rest = tokens_from(text, end);
        assert(text[at] != '=');
        assert forall|i: int| 0 <= i < t.len() implies !is_comparison(#[trigger] t[i]) by {
            if token is Some {
                assert(t == seq![token->0] + rest);
                if i > 0 {
                    assert(t[i] == rest[i - 1]);
                }
            }
        }
    }
}

/// A value that is one word need not be in quotes: the query means the same either way.
pub proof fn law_quotes_round_a_word_do_not_matter(
    name: Seq<char>,
    operator: TokenView,
    word: Seq<char>,
)
    requires
        is_plain_word(name),
        is_comparison(operator),
        is_plain_word(word),
    ensures
        text_filter(comparison(name, operator_text(operator), word)) == text_filter(
            comparison(name, operator_text(operator), quoted(word)),
        ),
{
    let bare = comparison(name, operator_text(operator), word);
    let full = comparison(name, operator_text(operator), quoted(word));
    assert forall|i: int| 0 <= i < word.len() implies #[trigger] word[i] != '"' by {
        assert(is_word_char(word[i]));
    }
    lemma_last_word(word);
    lemma_last_quoted(word);
    lemma_comparison_tokens(name, operator, word, TokenView::Word(word));
    lemma_comparison_tokens(name, operator, quoted(word), TokenView::Quoted(word));
    let a = tokens_from(bare, 0);
    let b = tokens_from(full, 0);
    assert(clause(a, 0) == clause(b, 0));
    assert(is_query(a) && is_query(b));
    if let Parsed::Good(_, next) = clause(a, 0) {
        lemma_clause_stays(a, Seq::empty(), 0);
        assert(next == 3);
    }
}

/// Filters can be put together exactly where the text, if there is one that is not blank, can be
/// read; what is wrong with it is what is told.
pub proof fn law_when_filters_can_be_composed(
    saved: Option<FilterView>,
    level: Option<LogLevel>,
    text: Option<Seq<char>>,
)
    ensures
        text is None ==> composed(saved, level, text) is Ok,
        text matches Some(words) ==> trimmed(words).len() == 0 ==> composed(saved, level, text)
            is Ok,
        text matches Some(words) ==> trimmed(words).len() > 0 ==> {
            &&& text_filter(words) is Ok ==> composed(saved, level, text) is Ok
            &&& text_filter(words) is Err ==> composed(saved, level, text) == text_filter(words)
        },
        composed(None, None, None) == Ok::<FilterView, Seq<char>>(FilterView::All),
        level matches Some(min) ==> composed(None, level, None) == Ok::<FilterView, Seq<char>>(
            FilterView::LevelAtLeast(min),
        ),
{
    assert(Seq::<FilterView>::empty() + Seq::<FilterView>::empty() =~= Seq::<FilterView>::empty());
    if let Some(min) = level {
        let one = seq![FilterView::LevelAtLeast(min)];
        assert(Seq::<FilterView>::empty() + one =~= one);
    }
}

/// A query is refused whose severity has no name that is known; and nothing is more severe than
/// `fatal`.
pub proof fn law_refused_severities(operator: TokenView, word: Seq<char>)
    requires
        is_comparison(operator),
        is_plain_word(word),
        level_named(word) is None || (operator is Gt && level_named(word) == Some(LogLevel::Fatal)),
    ensures
        text_filter(comparison("level"@, operator_text(operator), word)) is Err,
{
    lemma_words_are_plain();
    lemma_words_in_lower_case();
    lemma_last_word(word);
    lemma_comparison_tokens("level"@, operator, word, TokenView::Word(word));
    assert(!is_word(tokens_from(comparison("level"@, operator_text(operator), word), 0), 1, "in"@));
}

/// A query is refused that compares a field by order.
pub proof fn law_refused_fields(operator: TokenView, name: Seq<char>, word: Seq<char>)
    requires
        is_comparison(operator),
        !(operator is Eq) && !(operator is NotEq),
        names_a_field(name),
        is_plain_word(word),
    ensures
        text_filter(comparison(name, operator_text(operator), word)) is Err,
{
    lemma_last_word(word);
    lemma_comparison_tokens(name, operator, word, TokenView::Word(word));
    let t = tokens_from(comparison(name, operator_text(operator), word), 0);
    assert(!is_word(t, 1, "contains"@));
}

/// A query is refused that compares the message.
pub proof fn law_refused_messages(operator: TokenView, word: Seq<char>)
    requires
        is_comparison(operator),
        is_plain_word(word),
    ensures
        text_filter(comparison("message"@, operator_text(operator), word)) is Err,
{
    lemma_words_are_plain();
    lemma_words_in_lower_case();
    lemma_names_differ();
    lemma_last_word(word);
    lemma_comparison_tokens("message"@, operator, word, TokenView::Word(word));
    let t = tokens_from(comparison("message"@, operator_text(operator), word), 0);
    assert(!is_word(t, 1, "contains"@));
}

/// A query is refused that compares the source by order.
pub proof fn law_refused_sources(operator: TokenView, n: u64)
    requires
        is_comparison(operator),
        !(operator is Eq) && !(operator is NotEq),
    ensures
        text_filter(comparison("source"@, operator_text(operator), decimal(n as nat))) is Err,
{
    let number = decimal(n as nat);
    law_decimal_numbers_are_read_back(n as nat);
    assert forall|i: int| 0 <= i < number.len() implies is_word_char(#[trigger] number[i]) by {
        assert('0' <= number[i] && number[i] <= '9');
    }
    lemma_words_are_plain();
    lemma_words_in_lower_case();
    lemma_names_differ();
    lemma_last_word(number);
    lemma_comparison_tokens("source"@, operator, number, TokenView::Word(number));
}

/// A query is refused whose timestamp cannot be read.
pub proof fn law_refused_timestamps(operator: TokenView, text: Seq<char>)
    requires
        is_comparison(operator),
        has_no_quote(text),
        chrono_reading(text) is None,
    ensures
        text_filter(comparison("timestamp"@, operator_text(operator), quoted(text))) is Err,
{
    lemma_words_are_plain();
    lemma_words_in_lower_case();
    lemma_names_differ();
    lemma_last_quoted(text);
    lemma_comparison_tokens("timestamp"@, operator, quoted(text), TokenView::Quoted(text));
    let t = tokens_from(comparison("timestamp"@, operator_text(operator), quoted(text)), 0);
    assert(!is_word(t, 1, "between"@));
}

/// Conditions that another word than `and` follows cannot be read.
proof fn lemma_conditions_are_refused(t: Seq<TokenView>, rest: Seq<TokenView>, at: int)
    requires
        0 <= at,
        conditions(t, at) is Good,
        rest.len() > 0,
        !is_word(rest, 0, "and"@),
    ensures
        conditions(t + rest, at) is Bad,
    decreases t.len() - at,
{
    let s = t + rest;
    lemma_clause_stays(t, rest, at);
    let next = clause(t, at)->Good_1;
    if next < t.len() {
        assert(s[next] == t[next]);
        lemma_conditions_are_refused(t, rest, next + 1);
    } else {
        assert(s[next] == rest[0]);
    }
}

/// A query is refused where another word than `and` follows a condition.
pub proof fn law_conditions_are_joined_by_and(a: Seq<char>, word: Seq<char>)
    requires
        is_condition(a),
        is_plain_word(word),
        lowered(word) != "and"@,
    ensures
        text_filter(a + " "@ + word) is Err,
{
    lemma_query_is_its_conditions(a);
    let ta = tokens_from(a, 0);
    lemma_conditions_end(ta, 0);
    reveal_strlit(" ");
    let rest = " "@ + word;
    let s = a + " "@ + word;
    assert(s =~= a + rest);
    assert(rest =~= seq![' '] + word);
    assert(rest[0] == ' ');
    lemma_last_word(word);
    lemma_tokens_stay(a, rest, 0);
    lemma_tokens_move(a, rest, 0);
    lemma_space_makes_no_token(word);
    let tb = tokens_from(word, 0);
    assert(tokens_from(s, 0) =~= ta + tb);
    assert(tb[0] == TokenView::Word(word));
    lemma_conditions_are_refused(ta, tb, 0);
    let t = tokens_from(s, 0);
    assert(t[0] == ta[0] && t[1] == ta[1]);
    assert(s[0] == a[0]);
    assert(s.last() == word.last());
    lemma_nothing_to_trim(s);
}

} // verus!
