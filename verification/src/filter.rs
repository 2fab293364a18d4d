//! Filters: what they accept, how they are compiled and how a row is tested.
use crate::model::{field_value, LogLevel, LogRow, RowView, SourceId};
use crate::parser::level_place;
use crate::text::{
    chars_of, contains, contains_folded, contains_text, joined, law_folding_is_idempotent,
    lowercase, lowered, occurs_at, same_text,
};
use crate::time::Timestamp;
use vstd::prelude::*;
use vstd::string::*;

verus! {

/// A filter as it is written down, saved and composed.
#[derive(Debug, PartialEq, Eq)]
pub enum FilterExpr {
    /// Every row.
    All,
    /// Rows with a severity, and one at least as high.
    LevelAtLeast(LogLevel),
    /// Rows of exactly this severity.
    LevelEquals(LogLevel),
    /// Rows whose message contains the text, whatever the case of ASCII letters.
    Contains(String),
    /// Rows whose raw line contains the text, whatever the case of ASCII letters.
    RawContains(String),
    /// Rows whose message the regular expression matches.
    Regex(String),
    /// Rows of this source.
    Source(SourceId),
    /// Rows whose field of this name has this value.
    FieldEquals(String, String),
    /// Rows whose field of this name contains the text, whatever the case of ASCII letters.
    FieldContains(String, String),
    /// Rows with a timestamp from the first to the second, both included.
    TimestampBetween(Timestamp, Timestamp),
    /// Rows with this timestamp or a later one.
    TimestampFrom(Timestamp),
    /// Rows with this timestamp or an earlier one.
    TimestampUntil(Timestamp),
    /// Rows that every part accepts.
    And(Vec<FilterExpr>),
    /// Rows that some part accepts.
    Or(Vec<FilterExpr>),
    /// Rows that the part does not accept.
    Not(Box<FilterExpr>),
}

/// A filter as a value of mathematics.
pub ghost enum FilterView {
    All,
    LevelAtLeast(LogLevel),
    LevelEquals(LogLevel),
    Contains(Seq<char>),
    RawContains(Seq<char>),
    Regex(Seq<char>),
    Source(SourceId),
    FieldEquals(Seq<char>, Seq<char>),
    FieldContains(Seq<char>, Seq<char>),
    TimestampBetween(Timestamp, Timestamp),
    TimestampFrom(Timestamp),
    TimestampUntil(Timestamp),
    And(Seq<FilterView>),
    Or(Seq<FilterView>),
    Not(Box<FilterView>),
}

/// Whether a `regex::Regex` made of `pattern` finds a match in `text`.
pub uninterp spec fn regex_finds(pattern: Seq<char>, text: Seq<char>) -> bool;

/// The text of the error with which `regex::Regex::new` turns `pattern` down, or nothing where
/// it accepts the pattern.
pub uninterp spec fn regex_rejection(pattern: Seq<char>) -> Option<Seq<char>>;

/// The pattern that `regex::Regex::new` made a compiled regular expression of.
pub uninterp spec fn regex_pattern(compiled: regex::Regex) -> Seq<char>;

/// A compiled regular expression of the crate `regex`.
#[verifier::external_type_specification]
#[verifier::external_body]
pub struct ExRegex(regex::Regex);

/// Compiles a regular expression. Calls `regex::Regex::new`: it succeeds exactly where the
/// pattern is not rejected, the result keeps the pattern, and an error is handed out as its text.
#[verifier::external_body]
fn compile_regex(pattern: &str) -> (r: Result<regex::Regex, String>)
    ensures
        match r {
            Ok(compiled) => regex_rejection(pattern@) is None && regex_pattern(compiled) == pattern@,
            Err(message) => regex_rejection(pattern@) == Some(message@),
        },
{
    match regex::Regex::new(pattern) {
        Ok(compiled) => Ok(compiled),
        Err(error) => Err(error.to_string()),
    }
}

/// Searches a text. Calls `regex::Regex::is_match`, whose answer depends on the pattern of the
/// expression and on the text.
#[verifier::external_body]
fn regex_is_match(compiled: &regex::Regex, text: &str) -> (r: bool)
    ensures
        r == regex_finds(regex_pattern(*compiled), text@),
{
    compiled.is_match(text)
}

/// A field's value without the quotes around a JSON string.
pub open spec fn plain_value(value: Seq<char>) -> Seq<char> {
    if value.len() >= 2 && value[0] == '"' && value.last() == '"' {
        value.subrange(1, value.len() - 1)
    } else {
        value
    }
}

impl FilterView {
    /// The filter accepts the row.
    pub open spec fn accepts(self, row: RowView) -> bool
        decreases self,
    {
        match self {
            FilterView::All => true,
            FilterView::LevelAtLeast(min) => match row.level {
                Some(level) => level.rank() >= min.rank(),
                None => false,
            },
            FilterView::LevelEquals(level) => row.level == Some(level),
            FilterView::Contains(text) => contains_folded(row.message, text),
            FilterView::RawContains(text) => contains_folded(row.raw, text),
            FilterView::Regex(pattern) => regex_finds(pattern, row.message),
            FilterView::Source(source_id) => row.source_id == source_id,
            FilterView::FieldEquals(name, value) => match field_value(row.fields, name) {
                Some(found) => plain_value(found) == value,
                None => false,
            },
            FilterView::FieldContains(name, text) => match field_value(row.fields, name) {
                Some(found) => contains_folded(plain_value(found), text),
                None => false,
            },
            FilterView::TimestampBetween(from, to) => match row.timestamp {
                Some(time) => !time.is_before(from) && !to.is_before(time),
                None => false,
            },
            FilterView::TimestampFrom(from) => match row.timestamp {
                Some(time) => !time.is_before(from),
                None => false,
            },
            FilterView::TimestampUntil(to) => match row.timestamp {
                Some(time) => !to.is_before(time),
                None => false,
            },
            FilterView::And(parts) => all_accept(parts, row),
            FilterView::Or(parts) => some_accepts(parts, row),
            FilterView::Not(inner) => !inner.accepts(row),
        }
    }

    /// The first regular expression of the filter, from left to right, that does not compile.
    pub open spec fn bad_pattern(self) -> Option<Seq<char>>
        decreases self, 0int,
    {
        match self {
            FilterView::Regex(pattern) => if regex_rejection(pattern) is Some {
                Some(pattern)
            } else {
                None
            },
            FilterView::And(parts) => bad_pattern_from(parts, 0),
            FilterView::Or(parts) => bad_pattern_from(parts, 0),
            FilterView::Not(inner) => inner.bad_pattern(),
            _ => None,
        }
    }
}

/// Every part accepts the row.
pub open spec fn all_accept(parts: Seq<FilterView>, row: RowView) -> bool
    decreases parts,
{
    forall|i: int| 0 <= i < parts.len() ==> (#[trigger] parts[i]).accepts(row)
}

/// Some part accepts the row.
pub open spec fn some_accepts(parts: Seq<FilterView>, row: RowView) -> bool
    decreases parts,
{
    exists|i: int| 0 <= i < parts.len() && (#[trigger] parts[i]).accepts(row)
}

/// A conjunction accepts what every part accepts, a disjunction what some part accepts.
pub proof fn law_compositions(parts: Seq<FilterView>, row: RowView)
    ensures
        FilterView::And(parts).accepts(row) == all_accept(parts, row),
        FilterView::Or(parts).accepts(row) == some_accepts(parts, row),
{
}

/// The first regular expression among the parts from index `from` on that does not compile.
pub open spec fn bad_pattern_from(parts: Seq<FilterView>, from: int) -> Option<Seq<char>>
    decreases parts, parts.len() - from,
{
    if from < 0 || from >= parts.len() {
        None
    } else if parts[from].bad_pattern() is Some {
        parts[from].bad_pattern()
    } else {
        bad_pattern_from(parts, from + 1)
    }
}

impl FilterExpr {
    /// The filter as a value of mathematics.
    pub open spec fn view(self) -> FilterView
        decreases self,
    {
        match self {
            FilterExpr::All => FilterView::All,
            FilterExpr::LevelAtLeast(level) => FilterView::LevelAtLeast(level),
            FilterExpr::LevelEquals(level) => FilterView::LevelEquals(level),
            FilterExpr::Contains(text) => FilterView::Contains(text@),
            FilterExpr::RawContains(text) => FilterView::RawContains(text@),
            FilterExpr::Regex(pattern) => FilterView::Regex(pattern@),
            FilterExpr::Source(source_id) => FilterView::Source(source_id),
            FilterExpr::FieldEquals(name, value) => FilterView::FieldEquals(name@, value@),
            FilterExpr::FieldContains(name, text) => FilterView::FieldContains(name@, text@),
            FilterExpr::TimestampBetween(from, to) => FilterView::TimestampBetween(from, to),
            FilterExpr::TimestampFrom(from) => FilterView::TimestampFrom(from),
            FilterExpr::TimestampUntil(to) => FilterView::TimestampUntil(to),
            FilterExpr::And(parts) => FilterView::And(
                Seq::new(
                    parts@.len(),
                    |i: int|
                        if 0 <= i < parts@.len() {
                            parts@[i].view()
                        } else {
                            FilterView::All
                        },
                ),
            ),
            FilterExpr::Or(parts) => FilterView::Or(
                Seq::new(
                    parts@.len(),
                    |i: int|
                        if 0 <= i < parts@.len() {
                            parts@[i].view()
                        } else {
                            FilterView::All
                        },
                ),
            ),
            FilterExpr::Not(inner) => FilterView::Not(Box::new((*inner).view())),
        }
    }

    /// Whether the two filters are written alike.
    pub fn same_as(&self, other: &FilterExpr) -> (r: bool)
        ensures
            r == (self@ == other@),
        decreases self,
    {
        match (self, other) {
            (FilterExpr::All, FilterExpr::All) => true,
            (FilterExpr::LevelAtLeast(a), FilterExpr::LevelAtLeast(b)) => *a == *b,
            (FilterExpr::LevelEquals(a), FilterExpr::LevelEquals(b)) => *a == *b,
            (FilterExpr::Contains(a), FilterExpr::Contains(b)) => same_text(a, b),
            (FilterExpr::RawContains(a), FilterExpr::RawContains(b)) => same_text(a, b),
            (FilterExpr::Regex(a), FilterExpr::Regex(b)) => same_text(a, b),
            (FilterExpr::Source(a), FilterExpr::Source(b)) => *a == *b,
            (FilterExpr::FieldEquals(a, v), FilterExpr::FieldEquals(b, w)) => same_text(a, b)
                && same_text(v, w),
            (FilterExpr::FieldContains(a, v), FilterExpr::FieldContains(b, w)) => same_text(a, b)
                && same_text(v, w),
            (FilterExpr::TimestampBetween(a, v), FilterExpr::TimestampBetween(b, w)) => *a == *b
                && *v == *w,
            (FilterExpr::TimestampFrom(a), FilterExpr::TimestampFrom(b)) => *a == *b,
            (FilterExpr::TimestampUntil(a), FilterExpr::TimestampUntil(b)) => *a == *b,
            (FilterExpr::And(a), FilterExpr::And(b)) => {
                let r = Self::same_parts(a, b);
                proof {
                    if r {
                        assert(self@->And_0 =~= other@->And_0);
                    } else if self@->And_0 == other@->And_0 {
                        assert(a@.len() == self@->And_0.len());
                        assert forall|i: int| 0 <= i < a@.len() implies (#[trigger] a@[i])@ == b@[i]@ by {
                            assert(self@->And_0[i] == other@->And_0[i]);
                        }
                    }
                }
                r
            },
            (FilterExpr::Or(a), FilterExpr::Or(b)) => {
                let r = Self::same_parts(a, b);
                proof {
                    if r {
                        assert(self@->Or_0 =~= other@->Or_0);
                    } else if self@->Or_0 == other@->Or_0 {
                        assert(a@.len() == self@->Or_0.len());
                        assert forall|i: int| 0 <= i < a@.len() implies (#[trigger] a@[i])@ == b@[i]@ by {
                            assert(self@->Or_0[i] == other@->Or_0[i]);
                        }
                    }
                }
                r
            },
            (FilterExpr::Not(a), FilterExpr::Not(b)) => {
                let left: &FilterExpr = a;
                let right: &FilterExpr = b;
                left.same_as(right)
            },
            _ => false,
        }
    }

    /// Whether the two lists hold filters that are written alike.
    fn same_parts(a: &Vec<FilterExpr>, b: &Vec<FilterExpr>) -> (r: bool)
        ensures
            r == (a@.len() == b@.len() && forall|i: int|
                0 <= i < a@.len() ==> (#[trigger] a@[i])@ == b@[i]@),
        decreases a,
    {
        if a.len() != b.len() {
            return false;
        }
        let mut i: usize = 0;
        while i < a.len()
            invariant
                i <= a.len(),
                a.len() == b.len(),
                forall|k: int| 0 <= k < i ==> (#[trigger] a@[k])@ == b@[k]@,
            decreases a.len() - i,
        {
            assert(decreases_to!(*a => a[i as int]));
            if !a[i].same_as(&b[i]) {
                assert(a@[i as int]@ != b@[i as int]@);
                return false;
            }
            i += 1;
        }
        true
    }

    /// A copy of a list of filters.
    fn clone_parts(parts: &Vec<FilterExpr>) -> (r: Vec<FilterExpr>)
        ensures
            r@.len() == parts@.len(),
            forall|i: int| 0 <= i < parts@.len() ==> (#[trigger] r@[i])@ == parts@[i]@,
        decreases parts,
    {
        let mut out: Vec<FilterExpr> = Vec::new();
        let mut i: usize = 0;
        while i < parts.len()
            invariant
                i <= parts.len(),
                out@.len() == i,
                forall|k: int| 0 <= k < i ==> (#[trigger] out@[k])@ == parts@[k]@,
            decreases parts.len() - i,
        {
            assert(decreases_to!(*parts => parts[i as int]));
            out.push(parts[i].clone());
            i += 1;
        }
        out
    }
}

impl Clone for FilterExpr {
    fn clone(&self) -> (r: Self)
        ensures
            r@ == self@,
        decreases self,
    {
        match self {
            FilterExpr::All => FilterExpr::All,
            FilterExpr::LevelAtLeast(level) => FilterExpr::LevelAtLeast(*level),
            FilterExpr::LevelEquals(level) => FilterExpr::LevelEquals(*level),
            FilterExpr::Contains(text) => FilterExpr::Contains(text.clone()),
            FilterExpr::RawContains(text) => FilterExpr::RawContains(text.clone()),
            FilterExpr::Regex(pattern) => FilterExpr::Regex(pattern.clone()),
            FilterExpr::Source(source_id) => FilterExpr::Source(*source_id),
            FilterExpr::FieldEquals(name, value) => FilterExpr::FieldEquals(
                name.clone(),
                value.clone(),
            ),
            FilterExpr::FieldContains(name, text) => FilterExpr::FieldContains(
                name.clone(),
                text.clone(),
            ),
            FilterExpr::TimestampBetween(from, to) => FilterExpr::TimestampBetween(*from, *to),
            FilterExpr::TimestampFrom(from) => FilterExpr::TimestampFrom(*from),
            FilterExpr::TimestampUntil(to) => FilterExpr::TimestampUntil(*to),
            FilterExpr::And(parts) => {
                let r = FilterExpr::And(Self::clone_parts(parts));
                assert(r@->And_0 =~= self@->And_0);
                r
            },
            FilterExpr::Or(parts) => {
                let r = FilterExpr::Or(Self::clone_parts(parts));
                assert(r@->Or_0 =~= self@->Or_0);
                r
            },
            FilterExpr::Not(inner) => {
                let inner: &FilterExpr = inner;
                FilterExpr::Not(Box::new(inner.clone()))
            },
        }
    }
}

impl Default for FilterExpr {
    fn default() -> (r: FilterExpr)
        ensures
            r@ == FilterView::All,
    {
        FilterExpr::All
    }
}

/// A filter that is ready to test rows: its texts are folded and its expressions compiled.
#[derive(Debug)]
pub enum CompiledFilter {
    All,
    LevelAtLeast(LogLevel),
    LevelEquals(LogLevel),
    Contains(String),
    RawContains(String),
    Regex(regex::Regex),
    Source(SourceId),
    FieldEquals(String, String),
    FieldContains(String, String),
    TimestampBetween(Timestamp, Timestamp),
    TimestampFrom(Timestamp),
    TimestampUntil(Timestamp),
    And(Vec<CompiledFilter>),
    Or(Vec<CompiledFilter>),
    Not(Box<CompiledFilter>),
}

impl Default for CompiledFilter {
    fn default() -> (r: CompiledFilter)
        ensures
            r == CompiledFilter::All,
    {
        CompiledFilter::All
    }
}

/// Why a filter cannot be used.
#[derive(Debug, PartialEq, Eq)]
pub enum FilterError {
    /// The regular expression does not compile; `source` says why.
    InvalidRegex { pattern: String, source: String },
    /// The query is not well formed.
    InvalidQuery(String),
}

impl FilterError {
    /// The error in words.
    pub open spec fn text(self) -> Seq<char> {
        match self {
            FilterError::InvalidRegex { pattern, source } => "invalid regex '"@ + pattern@ + "': "@
                + source@,
            FilterError::InvalidQuery(reason) => "invalid query: "@ + reason@,
        }
    }

    /// The error in words.
    pub fn message(&self) -> (r: String)
        ensures
            r@ == self.text(),
    {
        match self {
            FilterError::InvalidRegex { pattern, source } => {
                let mut out = joined("invalid regex '", pattern);
                out.append("': ");
                out.append(source);
                out
            },
            FilterError::InvalidQuery(reason) => joined("invalid query: ", reason),
        }
    }
}

/// A field's value without the quotes around a JSON string.
fn unquoted(value: &str) -> (r: &str)
    ensures
        r@ == plain_value(value@),
{
    let chars = chars_of(value);
    let count: usize = chars.len();
    if count >= 2 && chars[0] == '"' && chars[count - 1] == '"' {
        value.substring_char(1, count - 1)
    } else {
        value
    }
}

impl CompiledFilter {
    /// The compiled filter accepts the row.
    pub open spec fn accepts(self, row: RowView) -> bool
        decreases self,
    {
        match self {
            CompiledFilter::All => true,
            CompiledFilter::LevelAtLeast(min) => match row.level {
                Some(level) => level.rank() >= min.rank(),
                None => false,
            },
            CompiledFilter::LevelEquals(level) => row.level == Some(level),
            CompiledFilter::Contains(needle) => contains(lowered(row.message), needle@),
            CompiledFilter::RawContains(needle) => contains(lowered(row.raw), needle@),
            CompiledFilter::Regex(compiled) => regex_finds(regex_pattern(compiled), row.message),
            CompiledFilter::Source(source_id) => row.source_id == source_id,
            CompiledFilter::FieldEquals(name, value) => match field_value(row.fields, name@) {
                Some(found) => plain_value(found) == value@,
                None => false,
            },
            CompiledFilter::FieldContains(name, needle) => match field_value(row.fields, name@) {
                Some(found) => contains(lowered(plain_value(found)), needle@),
                None => false,
            },
            CompiledFilter::TimestampBetween(from, to) => match row.timestamp {
                Some(time) => !time.is_before(from) && !to.is_before(time),
                None => false,
            },
            CompiledFilter::TimestampFrom(from) => match row.timestamp {
                Some(time) => !time.is_before(from),
                None => false,
            },
            CompiledFilter::TimestampUntil(to) => match row.timestamp {
                Some(time) => !to.is_before(time),
                None => false,
            },
            CompiledFilter::And(parts) => all_compiled_accept(parts, row),
            CompiledFilter::Or(parts) => some_compiled_accepts(parts, row),
            CompiledFilter::Not(inner) => !(*inner).accepts(row),
        }
    }

    /// The compiled filter accepts the rows that the written one accepts.
    pub open spec fn stands_for(self, expr: FilterView) -> bool {
        forall|row: RowView| #[trigger] self.accepts(row) == expr.accepts(row)
    }

    /// Compiles a filter. It fails on the first regular expression that does not compile.
    pub fn compile(expr: &FilterExpr) -> (r: Result<Self, FilterError>)
        ensures
            match r {
                Ok(compiled) => expr@.bad_pattern() is None && compiled.stands_for(expr@),
                Err(FilterError::InvalidRegex { pattern, source }) => expr@.bad_pattern() == Some(
                    pattern@,
                ) && regex_rejection(pattern@) == Some(source@),
                Err(FilterError::InvalidQuery(_)) => false,
            },
        decreases expr,
    {
        match expr {
            FilterExpr::All => Ok(CompiledFilter::All),
            FilterExpr::LevelAtLeast(level) => Ok(CompiledFilter::LevelAtLeast(*level)),
            FilterExpr::LevelEquals(level) => Ok(CompiledFilter::LevelEquals(*level)),
            FilterExpr::Contains(text) => Ok(CompiledFilter::Contains(lowercase(text))),
            FilterExpr::RawContains(text) => Ok(CompiledFilter::RawContains(lowercase(text))),
            FilterExpr::Regex(pattern) => match compile_regex(pattern) {
                Ok(compiled) => Ok(CompiledFilter::Regex(compiled)),
                Err(source) => Err(FilterError::InvalidRegex { pattern: pattern.clone(), source }),
            },
            FilterExpr::Source(source_id) => Ok(CompiledFilter::Source(*source_id)),
            FilterExpr::FieldEquals(name, value) => Ok(
                CompiledFilter::FieldEquals(name.clone(), value.clone()),
            ),
            FilterExpr::FieldContains(name, text) => Ok(
                CompiledFilter::FieldContains(name.clone(), lowercase(text)),
            ),
            FilterExpr::TimestampBetween(from, to) => Ok(
                CompiledFilter::TimestampBetween(*from, *to),
            ),
            FilterExpr::TimestampFrom(from) => Ok(CompiledFilter::TimestampFrom(*from)),
            FilterExpr::TimestampUntil(to) => Ok(CompiledFilter::TimestampUntil(*to)),
            FilterExpr::And(parts) => {
                let ghost views = expr@->And_0;
                match Self::compile_parts(parts, Ghost(views)) {
                    Ok(compiled) => {
                        let r = CompiledFilter::And(compiled);
                        proof {
                            lemma_parts_stand_for(compiled, views);
                            assert(expr@ == FilterView::And(views));
                        }
                        Ok(r)
                    },
                    Err(error) => Err(error),
                }
            },
            FilterExpr::Or(parts) => {
                let ghost views = expr@->Or_0;
                match Self::compile_parts(parts, Ghost(views)) {
                    Ok(compiled) => {
                        let r = CompiledFilter::Or(compiled);
                        proof {
                            lemma_parts_stand_for(compiled, views);
                            assert(expr@ == FilterView::Or(views));
                        }
                        Ok(r)
                    },
                    Err(error) => Err(error),
                }
            },
            FilterExpr::Not(inner) => {
                let inner: &FilterExpr = inner;
                match Self::compile(inner) {
                    Ok(compiled) => {
                        let r = CompiledFilter::Not(Box::new(compiled));
                        assert forall|row: RowView| #[trigger] r.accepts(row) == expr@.accepts(
                            row,
                        ) by {
                            assert(compiled.accepts(row) == inner@.accepts(row));
                        }
                        Ok(r)
                    },
                    Err(error) => Err(error),
                }
            },
        }
    }

    /// Compiles the parts of a filter from left to right.
    fn compile_parts(parts: &Vec<FilterExpr>, views: Ghost<Seq<FilterView>>) -> (r: Result<
        Vec<CompiledFilter>,
        FilterError,
    >)
        requires
            views@.len() == parts@.len(),
            forall|i: int| 0 <= i < parts@.len() ==> #[trigger] views@[i] == parts@[i]@,
        ensures
            match r {
                Ok(compiled) => {
                    &&& bad_pattern_from(views@, 0) is None
                    &&& compiled@.len() == views@.len()
                    &&& forall|i: int|
                        0 <= i < views@.len() ==> (#[trigger] compiled@[i]).stands_for(views@[i])
                },
                Err(FilterError::InvalidRegex { pattern, source }) => bad_pattern_from(views@, 0)
                    == Some(pattern@) && regex_rejection(pattern@) == Some(source@),
                Err(FilterError::InvalidQuery(_)) => false,
            },
        decreases parts,
    {
        let mut out: Vec<CompiledFilter> = Vec::new();
        let mut i: usize = 0;
        while i < parts.len()
            invariant
                i <= parts.len(),
                out@.len() == i,
                views@.len() == parts@.len(),
                forall|k: int| 0 <= k < parts@.len() ==> #[trigger] views@[k] == parts@[k]@,
                forall|k: int| 0 <= k < i ==> (#[trigger] out@[k]).stands_for(views@[k]),
                bad_pattern_from(views@, 0) == bad_pattern_from(views@, i as int),
            decreases parts.len() - i,
        {
            assert(decreases_to!(*parts => parts[i as int]));
            assert(views@[i as int] == parts@[i as int]@);
            match Self::compile(&parts[i]) {
                Ok(compiled) => {
                    out.push(compiled);
                },
                Err(error) => {
                    return Err(error);
                },
            }
            i += 1;
        }
        Ok(out)
    }

    /// Whether the filter accepts the row.
    pub fn matches(&self, row: &LogRow) -> (r: bool)
        ensures
            r == self.accepts(row@),
        decreases self,
    {
        match self {
            CompiledFilter::All => true,
            CompiledFilter::LevelAtLeast(min) => match row.level {
                Some(level) => level.at_least(*min),
                None => false,
            },
            CompiledFilter::LevelEquals(wanted) => match row.level {
                Some(level) => level == *wanted,
                None => false,
            },
            CompiledFilter::Contains(needle) => contains_text(&lowercase(&*row.message), needle),
            CompiledFilter::RawContains(needle) => contains_text(&lowercase(&*row.raw), needle),
            CompiledFilter::Regex(compiled) => regex_is_match(compiled, &*row.message),
            CompiledFilter::Source(source_id) => row.source_id == *source_id,
            CompiledFilter::FieldEquals(name, value) => match row.fields.get(name) {
                Some(found) => same_text(unquoted(found), value),
                None => false,
            },
            CompiledFilter::FieldContains(name, needle) => match row.fields.get(name) {
                Some(found) => contains_text(&lowercase(unquoted(found)), needle),
                None => false,
            },
            CompiledFilter::TimestampBetween(from, to) => match row.timestamp {
                Some(time) => !time.before(from) && !to.before(&time),
                None => false,
            },
            CompiledFilter::TimestampFrom(from) => match row.timestamp {
                Some(time) => !time.before(from),
                None => false,
            },
            CompiledFilter::TimestampUntil(to) => match row.timestamp {
                Some(time) => !to.before(&time),
                None => false,
            },
            CompiledFilter::And(parts) => {
                let mut i: usize = 0;
                proof {
                    lemma_compiled_compositions(*parts, row@);
                }
                while i < parts.len()
                    invariant
                        i <= parts.len(),
                        self.accepts(row@) == all_compiled_accept(*parts, row@),
                        *self == CompiledFilter::And(*parts),
                        forall|k: int| 0 <= k < i ==> (#[trigger] parts@[k]).accepts(row@),
                    decreases parts.len() - i,
                {
                    proof {
                        assert(self->And_0 == *parts);
                        assert(decreases_to!(*self => self->And_0));
                        assert(decreases_to!(*parts => parts[i as int]));
                    }
                    if !parts[i].matches(row) {
                        return false;
                    }
                    i += 1;
                }
                true
            },
            CompiledFilter::Or(parts) => {
                let mut i: usize = 0;
                proof {
                    lemma_compiled_compositions(*parts, row@);
                }
                while i < parts.len()
                    invariant
                        i <= parts.len(),
                        self.accepts(row@) == some_compiled_accepts(*parts, row@),
                        *self == CompiledFilter::Or(*parts),
                        forall|k: int| 0 <= k < i ==> !(#[trigger] parts@[k]).accepts(row@),
                    decreases parts.len() - i,
                {
                    proof {
                        assert(self->Or_0 == *parts);
                        assert(decreases_to!(*self => self->Or_0));
                        assert(decreases_to!(*parts => parts[i as int]));
                    }
                    if parts[i].matches(row) {
                        return true;
                    }
                    i += 1;
                }
                false
            },
            CompiledFilter::Not(inner) => {
                let inner: &CompiledFilter = inner;
                !inner.matches(row)
            },
        }
    }
}

/// Every compiled part accepts the row.
pub open spec fn all_compiled_accept(parts: Vec<CompiledFilter>, row: RowView) -> bool
    decreases parts,
{
    forall|i: int| 0 <= i < parts@.len() ==> (#[trigger] parts@[i]).accepts(row)
}

/// Some compiled part accepts the row.
pub open spec fn some_compiled_accepts(parts: Vec<CompiledFilter>, row: RowView) -> bool
    decreases parts,
{
    exists|i: int| 0 <= i < parts@.len() && (#[trigger] parts@[i]).accepts(row)
}

/// Compiled compositions ask their parts as written ones do.
proof fn lemma_compiled_compositions(parts: Vec<CompiledFilter>, row: RowView)
    ensures
        CompiledFilter::And(parts).accepts(row) == all_compiled_accept(parts, row),
        CompiledFilter::Or(parts).accepts(row) == some_compiled_accepts(parts, row),
{
}

/// Where each part stands for its filter, so do the conjunction and the disjunction.
proof fn lemma_parts_stand_for(compiled: Vec<CompiledFilter>, views: Seq<FilterView>)
    requires
        compiled@.len() == views.len(),
        forall|i: int| 0 <= i < views.len() ==> (#[trigger] compiled@[i]).stands_for(views[i]),
    ensures
        CompiledFilter::And(compiled).stands_for(FilterView::And(views)),
        CompiledFilter::Or(compiled).stands_for(FilterView::Or(views)),
{
    let both = CompiledFilter::And(compiled);
    let either = CompiledFilter::Or(compiled);
    assert forall|row: RowView| #[trigger] both.accepts(row) == FilterView::And(views).accepts(
        row,
    ) by {
        law_compositions(views, row);
        lemma_compiled_compositions(compiled, row);
        assert forall|i: int| 0 <= i < views.len() implies (#[trigger] views[i]).accepts(row)
            == compiled@[i].accepts(row) by {
            assert(compiled@[i].stands_for(views[i]));
        }
        if both.accepts(row) {
            assert forall|i: int| 0 <= i < views.len() implies (#[trigger] views[i]).accepts(row) by {
                assert(compiled@[i].accepts(row));
            }
        } else {
            let i = choose|i: int| 0 <= i < compiled@.len() && !(#[trigger] compiled@[i]).accepts(row);
            assert(!views[i].accepts(row));
        }
    }
    assert forall|row: RowView| #[trigger] either.accepts(row) == FilterView::Or(views).accepts(
        row,
    ) by {
        law_compositions(views, row);
        lemma_compiled_compositions(compiled, row);
        assert forall|i: int| 0 <= i < views.len() implies (#[trigger] views[i]).accepts(row)
            == compiled@[i].accepts(row) by {
            assert(compiled@[i].stands_for(views[i]));
        }
        if either.accepts(row) {
            let i = choose|i: int| 0 <= i < compiled@.len() && (#[trigger] compiled@[i]).accepts(row);
            assert(views[i].accepts(row));
        } else {
            assert forall|i: int| 0 <= i < views.len() implies !(#[trigger] views[i]).accepts(row) by {
                assert(!compiled@[i].accepts(row));
            }
        }
    }
}

/// A filter and its negation divide the rows: each row is accepted by exactly one of them.
pub proof fn law_negation_divides_rows(filter: FilterView, row: RowView)
    ensures
        filter.accepts(row) != FilterView::Not(Box::new(filter)).accepts(row),
{
}

/// The empty conjunction accepts every row, and the empty disjunction none.
pub proof fn law_empty_compositions(row: RowView)
    ensures
        FilterView::And(Seq::empty()).accepts(row),
        !FilterView::Or(Seq::empty()).accepts(row),
{
    law_compositions(Seq::empty(), row);
}

/// What is not in any part is in the conjunction of the negated parts.
pub proof fn law_de_morgan(parts: Seq<FilterView>, row: RowView)
    ensures
        FilterView::Not(Box::new(FilterView::Or(parts))).accepts(row) == FilterView::And(
            parts.map_values(|part: FilterView| FilterView::Not(Box::new(part))),
        ).accepts(row),
{
    let negated = parts.map_values(|part: FilterView| FilterView::Not(Box::new(part)));
    law_compositions(parts, row);
    law_compositions(negated, row);
    if FilterView::And(negated).accepts(row) {
        assert forall|i: int| 0 <= i < parts.len() implies !(#[trigger] parts[i]).accepts(row) by {
            assert(negated[i].accepts(row));
        }
    } else {
        let i = choose|i: int| 0 <= i < negated.len() && !(#[trigger] negated[i]).accepts(row);
        assert(parts[i].accepts(row));
    }
}

/// A higher severity floor accepts no more rows.
pub proof fn law_level_floor_is_monotone(low: LogLevel, high: LogLevel, row: RowView)
    requires
        low.rank() <= high.rank(),
        FilterView::LevelAtLeast(high).accepts(row),
    ensures
        FilterView::LevelAtLeast(low).accepts(row),
{
}

/// Text filters give the same answer whatever the case of the text that is searched for.
pub proof fn law_text_filters_disregard_case(text: Seq<char>, row: RowView)
    ensures
        FilterView::Contains(lowered(text)).accepts(row) == FilterView::Contains(text).accepts(row),
        FilterView::RawContains(lowered(text)).accepts(row) == FilterView::RawContains(
            text,
        ).accepts(row),
{
    law_folding_is_idempotent(text);
}

/// What each filter accepts. A severity floor accepts rows whose severity is as high or higher; an
/// exact severity, a source and a regular expression accept what their names say; a text is looked
/// for in the message or in the raw line, and a field by its name; a range of time holds both its
/// ends, to the nanosecond. Rows that lack what is asked for are not accepted.
pub proof fn law_what_filters_accept(
    row: RowView,
    level: LogLevel,
    text: Seq<char>,
    name: Seq<char>,
    source_id: SourceId,
    from: Timestamp,
    to: Timestamp,
)
    ensures
        FilterView::All.accepts(row),
        FilterView::LevelAtLeast(level).accepts(row) == match row.level {
            Some(found) => level_place(found) >= level_place(level),
            None => false,
        },
        FilterView::LevelEquals(level).accepts(row) == match row.level {
            Some(found) => level_place(found) == level_place(level),
            None => false,
        },
        FilterView::Contains(text).accepts(row) == contains_folded(row.message, text),
        FilterView::RawContains(text).accepts(row) == contains_folded(row.raw, text),
        FilterView::Regex(text).accepts(row) == regex_finds(text, row.message),
        FilterView::Source(source_id).accepts(row) == (row.source_id.0 == source_id.0),
        FilterView::FieldEquals(name, text).accepts(row) == match field_value(row.fields, name) {
            Some(found) => found == text && !(found.len() >= 2 && found[0] == '"' && found.last()
                == '"') || found == seq!['"'] + text + seq!['"'],
            None => false,
        },
        field_value(row.fields, name) is None ==> !FilterView::FieldContains(name, text).accepts(
            row,
        ),
        field_value(row.fields, name) == Some(seq!['"'] + text + seq!['"'])
            ==> FilterView::FieldContains(name, text).accepts(row),
        FilterView::TimestampFrom(from).accepts(row) == match row.timestamp {
            Some(time) => time.secs() > from.secs() || (time.secs() == from.secs() && time.nanos()
                >= from.nanos()),
            None => false,
        },
        FilterView::TimestampUntil(to).accepts(row) == match row.timestamp {
            Some(time) => time.secs() < to.secs() || (time.secs() == to.secs() && time.nanos()
                <= to.nanos()),
            None => false,
        },
        FilterView::TimestampBetween(from, to).accepts(row) == (FilterView::TimestampFrom(
            from,
        ).accepts(row) && FilterView::TimestampUntil(to).accepts(row)),
{
    let quoted = seq!['"'] + text + seq!['"'];
    assert(quoted[0] == '"' && quoted.last() == '"');
    assert(quoted.subrange(1, quoted.len() - 1) =~= text);
    if let Some(found) = field_value(row.fields, name) {
        if found.len() >= 2 && found[0] == '"' && found.last() == '"' {
            let inner = found.subrange(1, found.len() - 1);
            assert(found =~= seq!['"'] + inner + seq!['"']);
        }
    }
    assert(contains(lowered(text), lowered(text))) by {
        assert(lowered(text).subrange(0, lowered(text).len() as int) =~= lowered(text));
        assert(occurs_at(lowered(text), lowered(text), 0));
    }
}

/// A conjunction accepts a row exactly where each of its parts does, a disjunction where one of them
/// does, and a negation where its part does not.
pub proof fn law_what_compositions_accept(parts: Seq<FilterView>, inner: FilterView, row: RowView)
    ensures
        FilterView::And(parts).accepts(row) <==> forall|i: int|
            0 <= i < parts.len() ==> (#[trigger] parts[i]).accepts(row),
        FilterView::Or(parts).accepts(row) <==> exists|i: int|
            0 <= i < parts.len() && (#[trigger] parts[i]).accepts(row),
        FilterView::Not(Box::new(inner)).accepts(row) <==> !inner.accepts(row),
{
    law_compositions(parts, row);
}

/// A filter is refused for its first pattern that does not compile, and only for one: filters
/// without patterns are never refused, and one with a pattern exactly where that does not compile.
pub proof fn law_what_is_refused(
    parts: Seq<FilterView>,
    inner: FilterView,
    pattern: Seq<char>,
    k: int,
)
    requires
        0 <= k <= parts.len(),
        forall|i: int| 0 <= i < k ==> (#[trigger] parts[i]).bad_pattern() is None,
    ensures
        FilterView::Regex(pattern).bad_pattern() == if regex_rejection(pattern) is Some {
            Some(pattern)
        } else {
            None
        },
        FilterView::Not(Box::new(inner)).bad_pattern() == inner.bad_pattern(),
        FilterView::All.bad_pattern() is None,
        FilterView::Contains(pattern).bad_pattern() is None,
        FilterView::RawContains(pattern).bad_pattern() is None,
        k == parts.len() ==> FilterView::And(parts).bad_pattern() is None && FilterView::Or(
            parts,
        ).bad_pattern() is None,
        k < parts.len() && parts[k].bad_pattern() is Some ==> FilterView::And(parts).bad_pattern()
            == parts[k].bad_pattern() && FilterView::Or(parts).bad_pattern()
            == parts[k].bad_pattern(),
{
    lemma_first_refusal(parts, 0, k);
}

/// The first refusal comes from the first part that is refused.
proof fn lemma_first_refusal(parts: Seq<FilterView>, from: int, k: int)
    requires
        0 <= from <= k <= parts.len(),
        forall|i: int| from <= i < k ==> (#[trigger] parts[i]).bad_pattern() is None,
    ensures
        k == parts.len() ==> bad_pattern_from(parts, from) is None,
        k < parts.len() && parts[k].bad_pattern() is Some ==> bad_pattern_from(parts, from)
            == parts[k].bad_pattern(),
    decreases k - from,
{
    if from < k {
        assert(parts[from].bad_pattern() is None);
        lemma_first_refusal(parts, from + 1, k);
    }
}

} // verus!
