//! Parsing filters: comma-separated qualifiers, all of which must hold.
//!
//! A duration threshold is a float. How its text reads as one is not decided
//! here: [`duration_literals`] lists the texts that a filter asks about, and
//! [`parse_filter`] takes their readings.
use crate::gelf::message::Level;
use crate::text;
use crate::text::{
    first_and_last_places, first_at, is_white, last_at, lowercase_text, optional_text, trimmed,
    trimmed_texts_stay,
};
use vstd::prelude::*;

verus! {

broadcast use vstd::string::group_string_axioms;

/// A duration threshold in milliseconds, by the bits of its IEEE 754 double.
#[derive(Debug, Clone, Copy, PartialEq, Eq, Structural)]
pub struct DurationMs {
    pub bits: u64,
}

/// How a text reads as a duration threshold.
#[derive(Debug, PartialEq, Eq)]
pub struct DurationReading {
    pub text: String,
    /// The threshold, or nothing where the text is no number.
    pub value: Option<DurationMs>,
}

/// What a [`DurationReading`] says.
#[verifier::ext_equal]
pub struct DurationReadingView {
    pub text: Seq<char>,
    pub value: Option<DurationMs>,
}

impl View for DurationReading {
    type V = DurationReadingView;

    open spec fn view(&self) -> DurationReadingView {
        DurationReadingView { text: self.text@, value: self.value }
    }
}

/// The views of a list of readings.
pub open spec fn reading_views(readings: Seq<DurationReading>) -> Seq<DurationReadingView> {
    readings.map_values(|r: DurationReading| r@)
}

/// The first reading of a text; a text without one is no number.
pub open spec fn reading_of(readings: Seq<DurationReadingView>, text: Seq<char>) -> Option<
    DurationMs,
>
    decreases readings.len(),
{
    if readings.len() == 0 {
        None
    } else if readings[0].text == text {
        readings[0].value
    } else {
        reading_of(readings.skip(1), text)
    }
}

#[derive(Debug)]
pub enum ParsedFilter {
    All,
    /// `NONE`: matches nothing.
    Nothing,
    Qualifiers(Vec<Qualifier>),
}

/// What a [`ParsedFilter`] selects by.
#[verifier::ext_equal]
pub enum FilterView {
    All,
    Nothing,
    Qualifiers(Seq<QualifierView>),
}

impl View for ParsedFilter {
    type V = FilterView;

    open spec fn view(&self) -> FilterView {
        match self {
            ParsedFilter::All => FilterView::All,
            ParsedFilter::Nothing => FilterView::Nothing,
            ParsedFilter::Qualifiers(qs) => FilterView::Qualifiers(qualifier_views(qs@)),
        }
    }
}

#[allow(inconsistent_fields)]
#[derive(Debug)]
pub enum Qualifier {
    BarePattern(Pattern),
    SelectorPattern(Selector, Pattern),
    LevelFilter { op: LevelOp, level: Level },
    DurationFilter(DurationOp, DurationMs),
    BookmarkFilter { op: BookmarkOp, name: String },
    /// Read-and-advance bookmark reference. Resolved to `SeqFilter` by
    /// `bookmark_resolver::resolve_bookmarks`.
    CursorFilter { name: String },
    /// Internal-only: produced by `resolve_bookmarks` from `BookmarkFilter` and
    /// `CursorFilter`. Never emitted by the parser. Uses `SeqOp` (strict
    /// `Gt`/`Lt`), distinct from `BookmarkOp` because `b>=name` / `b<=name`
    /// resolve to STRICT `>` / `<` against the bookmark's seq.
    SeqFilter { op: SeqOp, value: u64 },
}

/// What a [`Qualifier`] selects by.
#[allow(inconsistent_fields)]
#[verifier::ext_equal]
pub enum QualifierView {
    BarePattern(PatternView),
    SelectorPattern(SelectorView, PatternView),
    LevelFilter { op: LevelOp, level: Level },
    DurationFilter(DurationOp, DurationMs),
    BookmarkFilter { op: BookmarkOp, name: Seq<char> },
    CursorFilter { name: Seq<char> },
    SeqFilter { op: SeqOp, value: u64 },
}

impl View for Qualifier {
    type V = QualifierView;

    open spec fn view(&self) -> QualifierView {
        match self {
            Qualifier::BarePattern(p) => QualifierView::BarePattern(p@),
            Qualifier::SelectorPattern(s, p) => QualifierView::SelectorPattern(s@, p@),
            Qualifier::LevelFilter { op, level } => QualifierView::LevelFilter {
                op: *op,
                level: *level,
            },
            Qualifier::DurationFilter(op, v) => QualifierView::DurationFilter(*op, *v),
            Qualifier::BookmarkFilter { op, name } => QualifierView::BookmarkFilter {
                op: *op,
                name: name@,
            },
            Qualifier::CursorFilter { name } => QualifierView::CursorFilter { name: name@ },
            Qualifier::SeqFilter { op, value } => QualifierView::SeqFilter {
                op: *op,
                value: *value,
            },
        }
    }
}

/// The views of a list of qualifiers.
pub open spec fn qualifier_views(qs: Seq<Qualifier>) -> Seq<QualifierView> {
    qs.map_values(|q: Qualifier| q@)
}

#[derive(Debug, Clone, Copy, PartialEq, Eq, Structural)]
pub enum DurationOp {
    Gte,
    Lte,
}

#[derive(Debug, Clone, Copy, PartialEq, Eq, Structural)]
pub enum BookmarkOp {
    Gte,
    Lte,
}

/// Strict comparison op for the internal-only `SeqFilter` qualifier.
#[derive(Debug, Clone, Copy, PartialEq, Eq, Structural)]
pub enum SeqOp {
    Gt,
    Lt,
}

#[derive(Debug, Clone, Copy, PartialEq, Eq, Structural)]
pub enum LevelOp {
    Eq,
    Gte,
    Lte,
}

#[derive(Debug)]
pub enum Pattern {
    /// Stored in lower case for case-insensitive matching.
    Substring(String),
    Regex { source: String, compiled: regex::Regex, case_insensitive: bool },
}

/// What a [`Pattern`] matches by.
#[verifier::ext_equal]
pub enum PatternView {
    Substring(Seq<char>),
    /// `expression` is the text that was compiled.
    Regex { source: Seq<char>, expression: Seq<char>, case_insensitive: bool },
}

impl View for Pattern {
    type V = PatternView;

    open spec fn view(&self) -> PatternView {
        match self {
            Pattern::Substring(s) => PatternView::Substring(s@),
            Pattern::Regex { source, compiled, case_insensitive } => PatternView::Regex {
                source: source@,
                expression: regex_source(*compiled),
                case_insensitive: *case_insensitive,
            },
        }
    }
}

#[derive(Debug, PartialEq, Eq)]
pub enum Selector {
    /// `m`
    Message,
    /// `fm`
    FullMessage,
    /// `mfm`
    MessageOrFull,
    /// `h`
    Host,
    /// `fa`
    Facility,
    /// `fi`
    File,
    /// `ln`
    Line,
    /// `sn`
    SpanName,
    /// `sv`
    ServiceName,
    /// `st`
    SpanStatus,
    /// `sk`
    SpanKind,
    /// Anything else.
    AdditionalField(String),
}

/// What a [`Selector`] looks at.
#[verifier::ext_equal]
pub enum SelectorView {
    Message,
    FullMessage,
    MessageOrFull,
    Host,
    Facility,
    File,
    Line,
    SpanName,
    ServiceName,
    SpanStatus,
    SpanKind,
    AdditionalField(Seq<char>),
}

impl View for Selector {
    type V = SelectorView;

    open spec fn view(&self) -> SelectorView {
        match self {
            Selector::Message => SelectorView::Message,
            Selector::FullMessage => SelectorView::FullMessage,
            Selector::MessageOrFull => SelectorView::MessageOrFull,
            Selector::Host => SelectorView::Host,
            Selector::Facility => SelectorView::Facility,
            Selector::File => SelectorView::File,
            Selector::Line => SelectorView::Line,
            Selector::SpanName => SelectorView::SpanName,
            Selector::ServiceName => SelectorView::ServiceName,
            Selector::SpanStatus => SelectorView::SpanStatus,
            Selector::SpanKind => SelectorView::SpanKind,
            Selector::AdditionalField(s) => SelectorView::AdditionalField(s@),
        }
    }
}

#[derive(Debug, PartialEq, Eq)]
pub enum FilterParseError {
    Empty,
    InvalidRegex(String),
    UnknownLevel(String),
    InvalidLevelSyntax(String),
    UnclosedQuote,
    MixedLogSpanSelectors,
    EmptyBookmarkName,
    InvalidBookmarkName(String),
    MultipleCursorQualifiers,
    CursorLteNotSupported,
}

/// What a [`FilterParseError`] says.
#[verifier::ext_equal]
pub enum FilterErrorView {
    Empty,
    InvalidRegex(Seq<char>),
    UnknownLevel(Seq<char>),
    InvalidLevelSyntax(Seq<char>),
    UnclosedQuote,
    MixedLogSpanSelectors,
    EmptyBookmarkName,
    InvalidBookmarkName(Seq<char>),
    MultipleCursorQualifiers,
    CursorLteNotSupported,
}

impl View for FilterParseError {
    type V = FilterErrorView;

    open spec fn view(&self) -> FilterErrorView {
        match self {
            FilterParseError::Empty => FilterErrorView::Empty,
            FilterParseError::InvalidRegex(s) => FilterErrorView::InvalidRegex(s@),
            FilterParseError::UnknownLevel(s) => FilterErrorView::UnknownLevel(s@),
            FilterParseError::InvalidLevelSyntax(s) => FilterErrorView::InvalidLevelSyntax(s@),
            FilterParseError::UnclosedQuote => FilterErrorView::UnclosedQuote,
            FilterParseError::MixedLogSpanSelectors => FilterErrorView::MixedLogSpanSelectors,
            FilterParseError::EmptyBookmarkName => FilterErrorView::EmptyBookmarkName,
            FilterParseError::InvalidBookmarkName(s) => FilterErrorView::InvalidBookmarkName(s@),
            FilterParseError::MultipleCursorQualifiers => FilterErrorView::MultipleCursorQualifiers,
            FilterParseError::CursorLteNotSupported => FilterErrorView::CursorLteNotSupported,
        }
    }
}

impl FilterErrorView {
    /// The message that a caller is shown.
    pub open spec fn message(self) -> Seq<char> {
        match self {
            FilterErrorView::Empty => "empty filter string"@,
            FilterErrorView::InvalidRegex(s) => "invalid regex: "@ + s,
            FilterErrorView::UnknownLevel(s) => "unknown level: "@ + s,
            FilterErrorView::InvalidLevelSyntax(s) => "invalid level filter syntax: "@ + s,
            FilterErrorView::UnclosedQuote => "unclosed quote"@,
            FilterErrorView::MixedLogSpanSelectors =>
                "cannot mix log and span selectors in the same filter"@,
            FilterErrorView::EmptyBookmarkName => "empty bookmark name"@,
            FilterErrorView::InvalidBookmarkName(s) => "invalid bookmark name: "@ + s,
            FilterErrorView::MultipleCursorQualifiers =>
                "only one cursor qualifier permitted per filter"@,
            FilterErrorView::CursorLteNotSupported =>
                "c<= is not a valid qualifier; cursors only support read-and-advance via c>=. For a read-only snapshot of past records, use b<=name."@,
        }
    }
}

impl FilterParseError {
    /// The message that a caller is shown.
    pub fn to_text(&self) -> (r: String)
        ensures
            r@ == self@.message(),
    {
        match self {
            FilterParseError::Empty => text::owned("empty filter string"),
            FilterParseError::InvalidRegex(s) => text::join2("invalid regex: ", s),
            FilterParseError::UnknownLevel(s) => text::join2("unknown level: ", s),
            FilterParseError::InvalidLevelSyntax(s) => text::join2(
                "invalid level filter syntax: ",
                s,
            ),
            FilterParseError::UnclosedQuote => text::owned("unclosed quote"),
            FilterParseError::MixedLogSpanSelectors => text::owned(
                "cannot mix log and span selectors in the same filter",
            ),
            FilterParseError::EmptyBookmarkName => text::owned("empty bookmark name"),
            FilterParseError::InvalidBookmarkName(s) => text::join2("invalid bookmark name: ", s),
            FilterParseError::MultipleCursorQualifiers => text::owned(
                "only one cursor qualifier permitted per filter",
            ),
            FilterParseError::CursorLteNotSupported => text::owned(
                "c<= is not a valid qualifier; cursors only support read-and-advance via c>=. For a read-only snapshot of past records, use b<=name.",
            ),
        }
    }
}

/// Whether a character may stand in a bookmark name. `/` enables qualified
/// names like `session-A/before`.
pub open spec fn is_bookmark_char(c: char) -> bool {
    ('a' <= c && c <= 'z') || ('A' <= c && c <= 'Z') || ('0' <= c && c <= '9') || c == '-' || c
        == '_' || c == '/'
}

/// Whether a bookmark name is legal inside a filter.
pub open spec fn is_bookmark_name(name: Seq<char>) -> bool {
    name.len() > 0 && forall|i: int| 0 <= i < name.len() ==> is_bookmark_char(#[trigger] name[i])
}

fn is_valid_bookmark_token(name: &Vec<char>) -> (r: bool)
    ensures
        r == is_bookmark_name(name@),
{
    if name.len() == 0 {
        return false;
    }
    let mut i: usize = 0;
    while i < name.len()
        invariant
            i <= name@.len(),
            forall|k: int| 0 <= k < i ==> is_bookmark_char(#[trigger] name@[k]),
        decreases name@.len() - i,
    {
        let c = name[i];
        if !(('a' <= c && c <= 'z') || ('A' <= c && c <= 'Z') || ('0' <= c && c <= '9') || c == '-'
            || c == '_' || c == '/') {
            proof {
                assert(!is_bookmark_char(name@[i as int]));
            }
            return false;
        }
        i += 1;
    }
    true
}

/// Whether a double quote is open behind `s`.
pub open spec fn in_quote(s: Seq<char>) -> bool
    decreases s.len(),
{
    if s.len() == 0 {
        false
    } else if s.last() == '"' {
        !in_quote(s.drop_last())
    } else {
        in_quote(s.drop_last())
    }
}

/// `s` split at the commas that stand outside double quotes.
pub open spec fn comma_split(s: Seq<char>) -> Seq<Seq<char>>
    decreases s.len(),
{
    if s.len() == 0 {
        seq![seq![]]
    } else {
        let before = comma_split(s.drop_last());
        if s.last() == ',' && !in_quote(s.drop_last()) {
            before.push(seq![])
        } else {
            before.update(before.len() - 1, before.last().push(s.last()))
        }
    }
}

/// The views of a list of character lists.
pub open spec fn char_lists(tokens: Seq<Vec<char>>) -> Seq<Seq<char>> {
    tokens.map_values(|t: Vec<char>| t@)
}

/// Split the input on commas, but not inside double-quoted strings.
fn split_on_commas(input: &Vec<char>) -> (r: Result<Vec<Vec<char>>, FilterParseError>)
    ensures
        match r {
            Ok(tokens) => !in_quote(input@) && char_lists(tokens@) == comma_split(input@),
            Err(e) => in_quote(input@) && e == FilterParseError::UnclosedQuote,
        },
{
    let mut tokens: Vec<Vec<char>> = Vec::new();
    let mut current: Vec<char> = Vec::new();
    let mut quoted = false;
    let mut i: usize = 0;
    proof {
        assert(input@.take(0) =~= seq![]);
        assert(char_lists(tokens@).push(current@) =~= comma_split(input@.take(0)));
    }
    while i < input.len()
        invariant
            i <= input@.len(),
            quoted == in_quote(input@.take(i as int)),
            char_lists(tokens@).push(current@) == comma_split(input@.take(i as int)),
        decreases input@.len() - i,
    {
        let c = input[i];
        proof {
            assert(input@.take(i + 1).drop_last() =~= input@.take(i as int));
            assert(input@.take(i + 1).last() == c);
        }
        let ghost before = char_lists(tokens@).push(current@);
        if c == ',' && !quoted {
            let ghost done = tokens@;
            let ghost last = current@;
            tokens.push(current);
            current = Vec::new();
            proof {
                assert(char_lists(tokens@) =~= char_lists(done).push(last));
                assert(current@ =~= seq![]);
            }
        } else {
            if c == '"' {
                quoted = !quoted;
            }
            let ghost last = current@;
            current.push(c);
            proof {
                assert(char_lists(tokens@).push(current@) =~= before.update(
                    before.len() - 1,
                    last.push(c),
                ));
            }
        }
        i += 1;
    }
    proof {
        assert(input@.take(input@.len() as int) =~= input@);
    }
    if quoted {
        return Err(FilterParseError::UnclosedQuote);
    }
    let ghost done = tokens@;
    let ghost last = current@;
    tokens.push(current);
    proof {
        assert(char_lists(tokens@) =~= char_lists(done).push(last));
    }
    Ok(tokens)
}

/// What a pattern text means: a regex between slashes, with its flags behind
/// the last of them, or a plain substring.
pub open spec fn pattern_of(s: Seq<char>) -> Result<PatternView, FilterErrorView> {
    if s.len() > 0 && s[0] == '/' {
        let inner = s.skip(1);
        let close = last_at(inner, '/');
        let source = if close >= 0 {
            inner.take(close)
        } else {
            inner
        };
        let case_insensitive = close >= 0 && inner.skip(close + 1).contains('i');
        let expression = if case_insensitive {
            seq!['(', '?', 'i', ')'] + source
        } else {
            source
        };
        match regex_failure(expression) {
            Some(e) => Err(FilterErrorView::InvalidRegex(e)),
            None => Ok(PatternView::Regex { source, expression, case_insensitive }),
        }
    } else {
        Ok(PatternView::Substring(lowercase_text(s)))
    }
}

/// A pattern, taken as what it stands for.
pub open spec fn pattern_result(r: Result<Pattern, FilterParseError>) -> Result<
    PatternView,
    FilterErrorView,
> {
    match r {
        Ok(p) => Ok(p@),
        Err(e) => Err(e@),
    }
}

/// Parse a pattern (a regex `/pattern/[i]` or a plain substring).
fn parse_pattern(s: &Vec<char>) -> (r: Result<Pattern, FilterParseError>)
    ensures
        pattern_result(r) == pattern_of(s@),
{
    if s.len() > 0 && s[0] == '/' {
        let inner = text::slice(s, 1, s.len());
        proof {
            assert(inner@ =~= s@.skip(1));
        }
        let (source, case_insensitive) = match text::find_last(&inner, '/') {
            Some(close) => {
                let source = text::text_between(&inner, 0, close);
                let flags = text::slice(&inner, close + 1, inner.len());
                let at: usize = text::find_first(&flags, 'i');
                proof {
                    assert(source@ =~= inner@.take(close as int));
                    assert(flags@ =~= inner@.skip(close + 1));
                    if at < flags@.len() {
                        assert(flags@.contains('i'));
                    }
                }
                (source, at < flags.len())
            },
            None => (text::text_of(&inner), false),
        };
        compile_pattern(source, case_insensitive)
    } else {
        Ok(Pattern::Substring(text::lowercase(&text::text_of(s))))
    }
}

/// The pattern that matches by the regex `source`.
pub fn compile_pattern(source: String, case_insensitive: bool) -> (r: Result<
    Pattern,
    FilterParseError,
>)
    ensures
        ({
            let expression = if case_insensitive {
                seq!['(', '?', 'i', ')'] + source@
            } else {
                source@
            };
            pattern_result(r) == match regex_failure(expression) {
                Some(e) => Err::<PatternView, FilterErrorView>(FilterErrorView::InvalidRegex(e)),
                None => Ok::<PatternView, FilterErrorView>(
                    PatternView::Regex { source: source@, expression, case_insensitive },
                ),
            }
        }),
{
    proof {
        reveal_strlit("(?i)");
        assert("(?i)"@ =~= seq!['(', '?', 'i', ')']);
    }
    let expression = if case_insensitive {
        text::join2("(?i)", &source)
    } else {
        source.clone()
    };
    match compile(&expression) {
        Ok(compiled) => Ok(Pattern::Regex { source, compiled, case_insensitive }),
        Err(e) => Err(FilterParseError::InvalidRegex(e)),
    }
}

/// Why stored fields make no pattern.
#[derive(Debug, PartialEq, Eq)]
pub enum PatternFieldError {
    MissingValue,
    MissingSource,
    InvalidRegex(String),
    UnknownType(Option<String>),
}

/// What a [`PatternFieldError`] says.
#[verifier::ext_equal]
pub enum PatternFieldErrorView {
    MissingValue,
    MissingSource,
    InvalidRegex(Seq<char>),
    UnknownType(Option<Seq<char>>),
}

impl View for PatternFieldError {
    type V = PatternFieldErrorView;

    open spec fn view(&self) -> PatternFieldErrorView {
        match self {
            PatternFieldError::MissingValue => PatternFieldErrorView::MissingValue,
            PatternFieldError::MissingSource => PatternFieldErrorView::MissingSource,
            PatternFieldError::InvalidRegex(e) => PatternFieldErrorView::InvalidRegex(e@),
            PatternFieldError::UnknownType(t) => PatternFieldErrorView::UnknownType(
                text::optional_text(*t),
            ),
        }
    }
}

/// The pattern that stored fields describe.
pub open spec fn stored_pattern(
    kind: Option<Seq<char>>,
    value: Option<Seq<char>>,
    source: Option<Seq<char>>,
    case_insensitive: Option<bool>,
) -> Result<PatternView, PatternFieldErrorView> {
    if kind == Some("substring"@) {
        match value {
            Some(v) => Ok(PatternView::Substring(v)),
            None => Err(PatternFieldErrorView::MissingValue),
        }
    } else if kind == Some("regex"@) {
        match source {
            None => Err(PatternFieldErrorView::MissingSource),
            Some(s) => {
                let folded = case_insensitive == Some(true);
                let expression = if folded {
                    seq!['(', '?', 'i', ')'] + s
                } else {
                    s
                };
                match regex_failure(expression) {
                    Some(e) => Err(PatternFieldErrorView::InvalidRegex(e)),
                    None => Ok(
                        PatternView::Regex { source: s, expression, case_insensitive: folded },
                    ),
                }
            },
        }
    } else {
        Err(PatternFieldErrorView::UnknownType(kind))
    }
}

impl Pattern {
    /// The pattern that stored fields describe: its type, the text of a
    /// substring, the source of a regex and whether it ignores case, which it
    /// does not unless it says so.
    pub fn from_fields(
        kind: Option<String>,
        value: Option<String>,
        source: Option<String>,
        case_insensitive: Option<bool>,
    ) -> (r: Result<Pattern, PatternFieldError>)
        ensures
            (match r {
                Ok(p) => Ok::<PatternView, PatternFieldErrorView>(p@),
                Err(e) => Err::<PatternView, PatternFieldErrorView>(e@),
            }) == stored_pattern(
                text::optional_text(kind),
                text::optional_text(value),
                text::optional_text(source),
                case_insensitive,
            ),
    {
        let (substring, regex) = match &kind {
            Some(k) => (text::same(k, "substring"), text::same(k, "regex")),
            None => (false, false),
        };
        proof {
            reveal_strlit("substring");
            reveal_strlit("regex");
        }
        if substring {
            match value {
                Some(v) => Ok(Pattern::Substring(v)),
                None => Err(PatternFieldError::MissingValue),
            }
        } else if regex {
            match source {
                None => Err(PatternFieldError::MissingSource),
                Some(s) => {
                    let folded = match case_insensitive {
                        Some(b) => b,
                        None => false,
                    };
                    match compile_pattern(s, folded) {
                        Ok(p) => Ok(p),
                        Err(FilterParseError::InvalidRegex(e)) => Err(
                            PatternFieldError::InvalidRegex(e),
                        ),
                        Err(_) => Err(PatternFieldError::MissingSource),
                    }
                },
            }
        } else {
            Err(PatternFieldError::UnknownType(kind))
        }
    }
}

/// The fields that a pattern is stored as.
#[derive(Debug, PartialEq, Eq)]
pub struct StoredPattern {
    pub kind: &'static str,
    pub value: Option<String>,
    pub source: Option<String>,
    pub case_insensitive: Option<bool>,
}

/// What a [`StoredPattern`] holds.
#[verifier::ext_equal]
pub struct StoredPatternView {
    pub kind: Seq<char>,
    pub value: Option<Seq<char>>,
    pub source: Option<Seq<char>>,
    pub case_insensitive: Option<bool>,
}

impl View for StoredPattern {
    type V = StoredPatternView;

    open spec fn view(&self) -> StoredPatternView {
        StoredPatternView {
            kind: self.kind@,
            value: text::optional_text(self.value),
            source: text::optional_text(self.source),
            case_insensitive: self.case_insensitive,
        }
    }
}

impl PatternView {
    /// The fields that a pattern is stored as. The compiled regex is none of
    /// them: it is compiled again from its source.
    pub open spec fn stored(self) -> StoredPatternView {
        match self {
            PatternView::Substring(s) => StoredPatternView {
                kind: "substring"@,
                value: Some(s),
                source: None,
                case_insensitive: None,
            },
            PatternView::Regex { source, case_insensitive, .. } => StoredPatternView {
                kind: "regex"@,
                value: None,
                source: Some(source),
                case_insensitive: Some(case_insensitive),
            },
        }
    }

    /// A regex was compiled from its own source.
    pub open spec fn compiled_from_source(self) -> bool {
        match self {
            PatternView::Substring(_) => true,
            PatternView::Regex { source, expression, case_insensitive } => {
                &&& expression == if case_insensitive {
                    seq!['(', '?', 'i', ')'] + source
                } else {
                    source
                }
                &&& regex_failure(expression) is None
            },
        }
    }
}

impl Pattern {
    /// The fields that the pattern is stored as.
    pub fn to_fields(&self) -> (r: StoredPattern)
        ensures
            r@ == self@.stored(),
    {
        match self {
            Pattern::Substring(s) => StoredPattern {
                kind: "substring",
                value: Some(s.clone()),
                source: None,
                case_insensitive: None,
            },
            Pattern::Regex { source, case_insensitive, .. } => StoredPattern {
                kind: "regex",
                value: None,
                source: Some(source.clone()),
                case_insensitive: Some(*case_insensitive),
            },
        }
    }
}

/// A stored pattern is read back as it was.
pub proof fn stored_patterns_are_read_back(p: PatternView)
    requires
        p.compiled_from_source(),
    ensures
        stored_pattern(
            Some(p.stored().kind),
            p.stored().value,
            p.stored().source,
            p.stored().case_insensitive,
        ) == Ok::<PatternView, PatternFieldErrorView>(p),
{
    reveal_strlit("substring");
    reveal_strlit("regex");
    assert("substring"@.len() == 9 && "regex"@.len() == 5);
}

/// The selector that a name stands for.
pub open spec fn selector_of(s: Seq<char>) -> SelectorView {
    if s == "m"@ {
        SelectorView::Message
    } else if s == "fm"@ {
        SelectorView::FullMessage
    } else if s == "mfm"@ {
        SelectorView::MessageOrFull
    } else if s == "h"@ {
        SelectorView::Host
    } else if s == "fa"@ {
        SelectorView::Facility
    } else if s == "fi"@ {
        SelectorView::File
    } else if s == "ln"@ {
        SelectorView::Line
    } else if s == "sn"@ {
        SelectorView::SpanName
    } else if s == "sv"@ {
        SelectorView::ServiceName
    } else if s == "st"@ {
        SelectorView::SpanStatus
    } else if s == "sk"@ {
        SelectorView::SpanKind
    } else {
        SelectorView::AdditionalField(s)
    }
}

/// Map a selector's name to the selector.
fn parse_selector(s: &Vec<char>) -> (r: Selector)
    ensures
        r@ == selector_of(s@),
{
    if text::spells(s, "m") {
        Selector::Message
    } else if text::spells(s, "fm") {
        Selector::FullMessage
    } else if text::spells(s, "mfm") {
        Selector::MessageOrFull
    } else if text::spells(s, "h") {
        Selector::Host
    } else if text::spells(s, "fa") {
        Selector::Facility
    } else if text::spells(s, "fi") {
        Selector::File
    } else if text::spells(s, "ln") {
        Selector::Line
    } else if text::spells(s, "sn") {
        Selector::SpanName
    } else if text::spells(s, "sv") {
        Selector::ServiceName
    } else if text::spells(s, "st") {
        Selector::SpanStatus
    } else if text::spells(s, "sk") {
        Selector::SpanKind
    } else {
        Selector::AdditionalField(text::text_of(s))
    }
}

/// Whether `t` begins with `key`, `op` and `=`.
pub open spec fn has_operator(t: Seq<char>, key: char, op: char) -> bool {
    t.len() >= 3 && t[0] == key && t[1] == op && t[2] == '='
}

fn begins_with_operator(t: &Vec<char>, key: char, op: char) -> (r: bool)
    ensures
        r == has_operator(t@, key, op),
{
    t.len() >= 3 && t[0] == key && t[1] == op && t[2] == '='
}

/// Whether `t` stands in double quotes.
pub open spec fn is_quoted(t: Seq<char>) -> bool {
    t.len() >= 2 && t[0] == '"' && t.last() == '"'
}

/// `t` without the double quotes around it, where there are any.
pub open spec fn unquoted(t: Seq<char>) -> Seq<char> {
    if is_quoted(t) {
        t.subrange(1, t.len() - 1)
    } else {
        t
    }
}

/// A qualifier that compares the level.
pub open spec fn level_qualifier(op: LevelOp, name: Seq<char>) -> Result<
    QualifierView,
    FilterErrorView,
> {
    match Level::of_name(name) {
        Some(level) => Ok(QualifierView::LevelFilter { op, level }),
        None => Err(FilterErrorView::UnknownLevel(name)),
    }
}

/// A qualifier that compares the duration.
pub open spec fn duration_qualifier(
    op: DurationOp,
    number: Seq<char>,
    readings: Seq<DurationReadingView>,
) -> Result<QualifierView, FilterErrorView> {
    match reading_of(readings, number) {
        Some(v) => Ok(QualifierView::DurationFilter(op, v)),
        None => Err(
            FilterErrorView::InvalidLevelSyntax("invalid duration value: "@ + number),
        ),
    }
}

/// The name that a bookmark or cursor qualifier refers to.
pub open spec fn bookmark_name(rest: Seq<char>) -> Result<Seq<char>, FilterErrorView> {
    let name = trimmed(rest);
    if name.len() == 0 {
        Err(FilterErrorView::EmptyBookmarkName)
    } else if !is_bookmark_name(name) {
        Err(FilterErrorView::InvalidBookmarkName(name))
    } else {
        Ok(name)
    }
}

/// A token that is none of the comparing qualifiers: a quoted text, a regex, a
/// selector and its pattern, or a plain text.
pub open spec fn matching_qualifier(t: Seq<char>) -> Result<QualifierView, FilterErrorView> {
    let eq = first_at(t, '=');
    if is_quoted(t) {
        Ok(QualifierView::BarePattern(PatternView::Substring(lowercase_text(unquoted(t)))))
    } else if t.len() > 0 && t[0] == '/' {
        match pattern_of(t) {
            Ok(p) => Ok(QualifierView::BarePattern(p)),
            Err(e) => Err(e),
        }
    } else if eq < t.len() && trimmed(t.take(eq)).len() > 0 {
        match pattern_of(unquoted(trimmed(t.skip(eq + 1)))) {
            Ok(p) => Ok(QualifierView::SelectorPattern(selector_of(trimmed(t.take(eq))), p)),
            Err(e) => Err(e),
        }
    } else {
        Ok(QualifierView::BarePattern(PatternView::Substring(lowercase_text(t))))
    }
}

/// What a token without white space at its ends means.
pub open spec fn qualifier_of(t: Seq<char>, readings: Seq<DurationReadingView>) -> Result<
    QualifierView,
    FilterErrorView,
> {
    let rest = t.skip(3);
    if has_operator(t, 'l', '>') {
        level_qualifier(LevelOp::Gte, rest)
    } else if has_operator(t, 'l', '<') {
        level_qualifier(LevelOp::Lte, rest)
    } else if t.len() >= 2 && t[0] == 'l' && t[1] == '=' {
        level_qualifier(LevelOp::Eq, t.skip(2))
    } else if has_operator(t, 'd', '>') {
        duration_qualifier(DurationOp::Gte, rest, readings)
    } else if has_operator(t, 'd', '<') {
        duration_qualifier(DurationOp::Lte, rest, readings)
    } else if has_operator(t, 'b', '>') {
        match bookmark_name(rest) {
            Ok(name) => Ok(QualifierView::BookmarkFilter { op: BookmarkOp::Gte, name }),
            Err(e) => Err(e),
        }
    } else if has_operator(t, 'b', '<') {
        match bookmark_name(rest) {
            Ok(name) => Ok(QualifierView::BookmarkFilter { op: BookmarkOp::Lte, name }),
            Err(e) => Err(e),
        }
    } else if has_operator(t, 'c', '>') {
        match bookmark_name(rest) {
            Ok(name) => Ok(QualifierView::CursorFilter { name }),
            Err(e) => Err(e),
        }
    } else if has_operator(t, 'c', '<') {
        Err(FilterErrorView::CursorLteNotSupported)
    } else {
        matching_qualifier(t)
    }
}

/// A qualifier, taken as what it stands for.
pub open spec fn qualifier_result(r: Result<Qualifier, FilterParseError>) -> Result<
    QualifierView,
    FilterErrorView,
> {
    match r {
        Ok(q) => Ok(q@),
        Err(e) => Err(e@),
    }
}

fn level_filter(op: LevelOp, name: &Vec<char>) -> (r: Result<Qualifier, FilterParseError>)
    ensures
        qualifier_result(r) == level_qualifier(op, name@),
{
    let name = text::text_of(name);
    match Level::from_name(&name) {
        Some(level) => Ok(Qualifier::LevelFilter { op, level }),
        None => Err(FilterParseError::UnknownLevel(name)),
    }
}

fn look_up(readings: &Vec<DurationReading>, number: &str) -> (r: Option<DurationMs>)
    ensures
        r == reading_of(reading_views(readings@), number@),
{
    let ghost all = reading_views(readings@);
    let mut i: usize = 0;
    proof {
        assert(all.skip(0) =~= all);
    }
    while i < readings.len()
        invariant
            all == reading_views(readings@),
            i <= readings@.len(),
            reading_of(all, number@) == reading_of(all.skip(i as int), number@),
        decreases readings@.len() - i,
    {
        let reading = &readings[i];
        proof {
            assert(all.skip(i as int)[0] == reading@);
            assert(all.skip(i as int).skip(1) =~= all.skip(i + 1));
        }
        if text::same(&reading.text, number) {
            return reading.value;
        }
        i += 1;
    }
    None
}

fn duration_filter(op: DurationOp, number: &Vec<char>, readings: &Vec<DurationReading>) -> (r: Result<
    Qualifier,
    FilterParseError,
>)
    ensures
        qualifier_result(r) == duration_qualifier(op, number@, reading_views(readings@)),
{
    let number = text::text_of(number);
    match look_up(readings, &number) {
        Some(v) => Ok(Qualifier::DurationFilter(op, v)),
        None => Err(
            FilterParseError::InvalidLevelSyntax(text::join2("invalid duration value: ", &number)),
        ),
    }
}

fn referred_name(rest: &Vec<char>) -> (r: Result<String, FilterParseError>)
    ensures
        match r {
            Ok(name) => bookmark_name(rest@) == Ok::<Seq<char>, FilterErrorView>(name@),
            Err(e) => bookmark_name(rest@) == Err::<Seq<char>, FilterErrorView>(e@),
        },
{
    let name = text::trim(rest);
    if name.len() == 0 {
        return Err(FilterParseError::EmptyBookmarkName);
    }
    if !is_valid_bookmark_token(&name) {
        return Err(FilterParseError::InvalidBookmarkName(text::text_of(&name)));
    }
    Ok(text::text_of(&name))
}

fn unquote(t: &Vec<char>) -> (r: Vec<char>)
    ensures
        r@ == unquoted(t@),
{
    if t.len() >= 2 && t[0] == '"' && t[t.len() - 1] == '"' {
        text::slice(t, 1, t.len() - 1)
    } else {
        text::slice(t, 0, t.len())
    }
}

fn matching_token(token: &Vec<char>) -> (r: Result<Qualifier, FilterParseError>)
    ensures
        qualifier_result(r) == matching_qualifier(token@),
{
    // Quoted bare pattern: "..."
    if token.len() >= 2 && token[0] == '"' && token[token.len() - 1] == '"' {
        let inner = text::text_of(&unquote(token));
        return Ok(Qualifier::BarePattern(Pattern::Substring(text::lowercase(&inner))));
    }
    // Bare regex: /pattern/[i]
    if token.len() > 0 && token[0] == '/' {
        return match parse_pattern(token) {
            Ok(p) => Ok(Qualifier::BarePattern(p)),
            Err(e) => Err(e),
        };
    }
    // Selector=pattern: look for the first `=` sign
    let eq: usize = text::find_first(token, '=');
    if eq < token.len() {
        let lhs = text::trim(&text::slice(token, 0, eq));
        let rhs = text::trim(&text::slice(token, eq + 1, token.len()));
        proof {
            assert(token@.subrange(0, eq as int) =~= token@.take(eq as int));
            assert(token@.subrange(eq + 1, token@.len() as int) =~= token@.skip(eq + 1));
        }
        // lhs must not be empty; if it's empty treat as bare substring
        if lhs.len() > 0 {
            let selector = parse_selector(&lhs);
            return match parse_pattern(&unquote(&rhs)) {
                Ok(p) => Ok(Qualifier::SelectorPattern(selector, p)),
                Err(e) => Err(e),
            };
        }
    }
    // Bare substring (lowercased)
    Ok(Qualifier::BarePattern(Pattern::Substring(text::lowercase(&text::text_of(token)))))
}

/// Parse a single token, without white space at its ends, into a qualifier.
fn parse_token(token: &Vec<char>, readings: &Vec<DurationReading>) -> (r: Result<
    Qualifier,
    FilterParseError,
>)
    requires
        token@ == trimmed(token@),
    ensures
        qualifier_result(r) == qualifier_of(token@, reading_views(readings@)),
{
    // Level filter: l>=X, l<=X, l=X  (must check before general = handling)
    if token.len() >= 2 && token[0] == 'l' && token[1] == '=' {
        let rest = text::slice(token, 2, token.len());
        proof {
            assert(rest@ =~= token@.skip(2));
        }
        return level_filter(LevelOp::Eq, &rest);
    }
    if token.len() < 3 {
        return matching_token(token);
    }
    let rest = text::slice(token, 3, token.len());
    proof {
        assert(rest@ =~= token@.skip(3));
    }
    if begins_with_operator(token, 'l', '>') {
        return level_filter(LevelOp::Gte, &rest);
    }
    if begins_with_operator(token, 'l', '<') {
        return level_filter(LevelOp::Lte, &rest);
    }
    // Duration filter: d>=N, d<=N
    if begins_with_operator(token, 'd', '>') {
        return duration_filter(DurationOp::Gte, &rest, readings);
    }
    if begins_with_operator(token, 'd', '<') {
        return duration_filter(DurationOp::Lte, &rest, readings);
    }
    // Bookmark filter: b>=NAME, b<=NAME
    if begins_with_operator(token, 'b', '>') {
        return match referred_name(&rest) {
            Ok(name) => Ok(Qualifier::BookmarkFilter { op: BookmarkOp::Gte, name }),
            Err(e) => Err(e),
        };
    }
    if begins_with_operator(token, 'b', '<') {
        return match referred_name(&rest) {
            Ok(name) => Ok(Qualifier::BookmarkFilter { op: BookmarkOp::Lte, name }),
            Err(e) => Err(e),
        };
    }
    // Cursor filter: c>=NAME (read-and-advance variant of b>=)
    if begins_with_operator(token, 'c', '>') {
        return match referred_name(&rest) {
            Ok(name) => Ok(Qualifier::CursorFilter { name }),
            Err(e) => Err(e),
        };
    }
    // c<= is intentionally not defined. Reject explicitly so users don't
    // silently get a custom-field filter.
    if begins_with_operator(token, 'c', '<') {
        return Err(FilterParseError::CursorLteNotSupported);
    }
    matching_token(token)
}

/// Whether a qualifier is one that only spans can meet.
pub open spec fn is_span_qualifier_view(q: QualifierView) -> bool {
    match q {
        QualifierView::SelectorPattern(sel, _) => sel is SpanName || sel is ServiceName || sel is SpanStatus
            || sel is SpanKind,
        QualifierView::DurationFilter(..) => true,
        _ => false,
    }
}

/// Whether a qualifier is one that only log records can meet.
pub open spec fn is_log_qualifier_view(q: QualifierView) -> bool {
    match q {
        QualifierView::SelectorPattern(sel, _) => sel is Message || sel is FullMessage
            || sel is MessageOrFull || sel is Host || sel is Facility || sel is File || sel is Line,
        QualifierView::LevelFilter { .. } => true,
        _ => false,
    }
}

/// Whether a qualifier refers to a bookmark or a cursor.
pub open spec fn is_reference(q: QualifierView) -> bool {
    q is BookmarkFilter || q is CursorFilter
}

/// Whether one of the qualifiers is one that only spans can meet.
pub open spec fn has_span_qualifier(qs: Seq<QualifierView>) -> bool {
    exists|i: int| 0 <= i < qs.len() && is_span_qualifier_view(#[trigger] qs[i])
}

/// Whether one of the qualifiers is one that only log records can meet.
pub open spec fn has_log_qualifier(qs: Seq<QualifierView>) -> bool {
    exists|i: int| 0 <= i < qs.len() && is_log_qualifier_view(#[trigger] qs[i])
}

/// Whether one of the qualifiers refers to a bookmark or a cursor.
pub open spec fn has_reference(qs: Seq<QualifierView>) -> bool {
    exists|i: int| 0 <= i < qs.len() && is_reference(#[trigger] qs[i])
}

/// The qualifiers of a filter; `ALL` and `NONE` have none.
pub open spec fn qualifiers_in(f: FilterView) -> Seq<QualifierView> {
    match f {
        FilterView::Qualifiers(qs) => qs,
        _ => seq![],
    }
}

/// Returns true if the filter uses span-specific selectors or duration filters.
pub fn is_span_filter(filter: &ParsedFilter) -> (r: bool)
    ensures
        r == has_span_qualifier(qualifiers_in(filter@)),
{
    match filter {
        ParsedFilter::All => false,
        ParsedFilter::Nothing => false,
        ParsedFilter::Qualifiers(qs) => any_span(qs),
    }
}

fn any_span(qs: &Vec<Qualifier>) -> (r: bool)
    ensures
        r == has_span_qualifier(qualifier_views(qs@)),
{
    let ghost views = qualifier_views(qs@);
    let mut i: usize = 0;
    while i < qs.len()
        invariant
            views == qualifier_views(qs@),
            i <= qs@.len(),
            forall|k: int| 0 <= k < i ==> !is_span_qualifier_view(#[trigger] views[k]),
        decreases qs@.len() - i,
    {
        proof {
            assert(views[i as int] == qs@[i as int]@);
        }
        if is_span_qualifier(&qs[i]) {
            return true;
        }
        i += 1;
    }
    false
}

fn any_log(qs: &Vec<Qualifier>) -> (r: bool)
    ensures
        r == has_log_qualifier(qualifier_views(qs@)),
{
    let ghost views = qualifier_views(qs@);
    let mut i: usize = 0;
    while i < qs.len()
        invariant
            views == qualifier_views(qs@),
            i <= qs@.len(),
            forall|k: int| 0 <= k < i ==> !is_log_qualifier_view(#[trigger] views[k]),
        decreases qs@.len() - i,
    {
        proof {
            assert(views[i as int] == qs@[i as int]@);
        }
        if is_log_qualifier(&qs[i]) {
            return true;
        }
        i += 1;
    }
    false
}

fn is_span_qualifier(q: &Qualifier) -> (r: bool)
    ensures
        r == is_span_qualifier_view(q@),
{
    match q {
        Qualifier::SelectorPattern(sel, _) => match sel {
            Selector::SpanName => true,
            Selector::ServiceName => true,
            Selector::SpanStatus => true,
            Selector::SpanKind => true,
            _ => false,
        },
        Qualifier::DurationFilter(..) => true,
        _ => false,
    }
}

fn is_log_qualifier(q: &Qualifier) -> (r: bool)
    ensures
        r == is_log_qualifier_view(q@),
{
    match q {
        Qualifier::SelectorPattern(sel, _) => match sel {
            Selector::Message => true,
            Selector::FullMessage => true,
            Selector::MessageOrFull => true,
            Selector::Host => true,
            Selector::Facility => true,
            Selector::File => true,
            Selector::Line => true,
            _ => false,
        },
        Qualifier::LevelFilter { .. } => true,
        _ => false,
    }
}

/// Returns true if any qualifier in the filter is a `BookmarkFilter` or
/// `CursorFilter`. Used by registration guards to reject bookmark filters and
/// cursor filters in long-lived registered filters and triggers.
pub fn contains_bookmark_qualifier(filter: &ParsedFilter) -> (r: bool)
    ensures
        r == has_reference(qualifiers_in(filter@)),
{
    match filter {
        ParsedFilter::All => false,
        ParsedFilter::Nothing => false,
        ParsedFilter::Qualifiers(qs) => {
            let ghost views = qualifier_views(qs@);
            let mut i: usize = 0;
            while i < qs.len()
                invariant
                    views == qualifier_views(qs@),
                    filter@ == FilterView::Qualifiers(views),
                    i <= qs@.len(),
                    forall|k: int| 0 <= k < i ==> !is_reference(#[trigger] views[k]),
                decreases qs@.len() - i,
            {
                proof {
                    assert(views[i as int] == qs@[i as int]@);
                }
                match &qs[i] {
                    Qualifier::BookmarkFilter { .. } => return true,
                    Qualifier::CursorFilter { .. } => return true,
                    _ => {},
                }
                i += 1;
            }
            false
        },
    }
}

/// How many qualifiers read and advance a cursor.
pub open spec fn cursor_count(qs: Seq<QualifierView>) -> nat
    decreases qs.len(),
{
    if qs.len() == 0 {
        0
    } else {
        cursor_count(qs.drop_last()) + if qs.last() is CursorFilter {
            1nat
        } else {
            0nat
        }
    }
}

fn count_cursors(qs: &Vec<Qualifier>) -> (n: usize)
    ensures
        n == cursor_count(qualifier_views(qs@)),
{
    let ghost views = qualifier_views(qs@);
    let mut n: usize = 0;
    let mut i: usize = 0;
    while i < qs.len()
        invariant
            views == qualifier_views(qs@),
            n <= i <= qs@.len(),
            n == cursor_count(views.take(i as int)),
        decreases qs@.len() - i,
    {
        proof {
            assert(views.take(i + 1).drop_last() =~= views.take(i as int));
            assert(views.take(i + 1).last() == qs@[i as int]@);
        }
        match &qs[i] {
            Qualifier::CursorFilter { .. } => {
                n += 1;
            },
            _ => {},
        }
        i += 1;
    }
    proof {
        assert(views.take(views.len() as int) =~= views);
    }
    n
}

/// The qualifiers of a list of tokens, the empty ones left out, or the error of
/// the first that has one.
pub open spec fn qualifiers_of(
    tokens: Seq<Seq<char>>,
    readings: Seq<DurationReadingView>,
) -> Result<Seq<QualifierView>, FilterErrorView>
    decreases tokens.len(),
{
    if tokens.len() == 0 {
        Ok(seq![])
    } else {
        match qualifiers_of(tokens.drop_last(), readings) {
            Err(e) => Err(e),
            Ok(qs) => if trimmed(tokens.last()).len() == 0 {
                Ok(qs)
            } else {
                match qualifier_of(trimmed(tokens.last()), readings) {
                    Ok(q) => Ok(qs.push(q)),
                    Err(e) => Err(e),
                }
            },
        }
    }
}

/// What a filter means.
pub open spec fn filter_of(input: Seq<char>, readings: Seq<DurationReadingView>) -> Result<
    FilterView,
    FilterErrorView,
> {
    let t = trimmed(input);
    if t.len() == 0 {
        Err(FilterErrorView::Empty)
    } else if t == "ALL"@ {
        Ok(FilterView::All)
    } else if t == "NONE"@ {
        Ok(FilterView::Nothing)
    } else if in_quote(t) {
        Err(FilterErrorView::UnclosedQuote)
    } else {
        match qualifiers_of(comma_split(t), readings) {
            Err(e) => Err(e),
            Ok(qs) => {
                if qs.len() == 0 {
                    Err(FilterErrorView::Empty)
                } else if has_span_qualifier(qs) && has_log_qualifier(qs) {
                    Err(FilterErrorView::MixedLogSpanSelectors)
                } else if cursor_count(qs) > 1 {
                    Err(FilterErrorView::MultipleCursorQualifiers)
                } else {
                    Ok(FilterView::Qualifiers(qs))
                }
            },
        }
    }
}

/// A filter, taken as what it stands for.
pub open spec fn filter_result(r: Result<ParsedFilter, FilterParseError>) -> Result<
    FilterView,
    FilterErrorView,
> {
    match r {
        Ok(f) => Ok(f@),
        Err(e) => Err(e@),
    }
}

/// Parse a filter. `readings` says how its [`duration_literals`] read as
/// numbers.
pub fn parse_filter(input: &str, readings: &Vec<DurationReading>) -> (r: Result<
    ParsedFilter,
    FilterParseError,
>)
    ensures
        filter_result(r) == filter_of(input@, reading_views(readings@)),
{
    let t = text::trim(&text::chars_of(input));
    if t.len() == 0 {
        return Err(FilterParseError::Empty);
    }
    if text::spells(&t, "ALL") {
        return Ok(ParsedFilter::All);
    }
    if text::spells(&t, "NONE") {
        return Ok(ParsedFilter::Nothing);
    }
    let tokens = match split_on_commas(&t) {
        Ok(tokens) => tokens,
        Err(e) => return Err(e),
    };
    let ghost lists = char_lists(tokens@);
    let ghost numbers = reading_views(readings@);
    let mut qualifiers: Vec<Qualifier> = Vec::new();
    let mut i: usize = 0;
    proof {
        assert(qualifier_views(qualifiers@) =~= seq![]);
        assert(lists.take(0) =~= seq![]);
    }
    while i < tokens.len()
        invariant
            lists == char_lists(tokens@),
            lists == comma_split(t@),
            numbers == reading_views(readings@),
            t@ == trimmed(input@),
            t@.len() > 0,
            t@ != "ALL"@,
            t@ != "NONE"@,
            !in_quote(t@),
            i <= tokens@.len(),
            qualifiers_of(lists.take(i as int), numbers) == Ok::<
                Seq<QualifierView>,
                FilterErrorView,
            >(qualifier_views(qualifiers@)),
        decreases tokens@.len() - i,
    {
        let token = text::trim(&tokens[i]);
        proof {
            assert(lists.take(i + 1).drop_last() =~= lists.take(i as int));
            assert(lists.take(i + 1).last() == tokens@[i as int]@);
            text::trimming_is_idempotent(tokens@[i as int]@);
        }
        if token.len() > 0 {
            match parse_token(&token, readings) {
                Ok(q) => {
                    let ghost before = qualifiers@;
                    qualifiers.push(q);
                    proof {
                        assert(qualifier_views(qualifiers@) =~= qualifier_views(before).push(q@));
                    }
                },
                Err(e) => {
                    proof {
                        lemma_first_error(lists, numbers, i + 1);
                    }
                    return Err(e);
                },
            }
        }
        i += 1;
    }
    proof {
        assert(lists.take(lists.len() as int) =~= lists);
    }
    if qualifiers.len() == 0 {
        return Err(FilterParseError::Empty);
    }
    // Validate: cannot mix log-specific and span-specific selectors
    let has_span = any_span(&qualifiers);
    let has_log = any_log(&qualifiers);
    if has_span && has_log {
        return Err(FilterParseError::MixedLogSpanSelectors);
    }
    // Validate: only one cursor qualifier permitted
    if count_cursors(&qualifiers) > 1 {
        return Err(FilterParseError::MultipleCursorQualifiers);
    }
    Ok(ParsedFilter::Qualifiers(qualifiers))
}

/// The error of the first faulty token is the error of the list.
proof fn lemma_first_error(
    tokens: Seq<Seq<char>>,
    readings: Seq<DurationReadingView>,
    n: int,
)
    requires
        0 <= n <= tokens.len(),
        qualifiers_of(tokens.take(n), readings) is Err,
    ensures
        qualifiers_of(tokens, readings) == qualifiers_of(tokens.take(n), readings),
    decreases tokens.len() - n,
{
    if n < tokens.len() {
        assert(tokens.take(n + 1).drop_last() =~= tokens.take(n));
        lemma_first_error(tokens, readings, n + 1);
    } else {
        assert(tokens.take(n) =~= tokens);
    }
}

/// Whether a list of qualifiers reads through a cursor.
pub open spec fn has_cursor(qs: Seq<QualifierView>) -> bool {
    exists|i: int| 0 <= i < qs.len() && (#[trigger] qs[i]) is CursorFilter
}

/// Whether a filter reads through a cursor.
pub fn contains_cursor_qualifier(filter: &ParsedFilter) -> (r: bool)
    ensures
        r == has_cursor(qualifiers_in(filter@)),
{
    match filter {
        ParsedFilter::All => false,
        ParsedFilter::Nothing => false,
        ParsedFilter::Qualifiers(qs) => {
            let ghost views = qualifier_views(qs@);
            let mut i: usize = 0;
            while i < qs.len()
                invariant
                    views == qualifier_views(qs@),
                    qualifiers_in(filter@) == views,
                    i <= qs@.len(),
                    forall|k: int| 0 <= k < i ==> !((#[trigger] views[k]) is CursorFilter),
                decreases qs@.len() - i,
            {
                proof {
                    assert(views[i as int] == qs@[i as int]@);
                }
                match &qs[i] {
                    Qualifier::CursorFilter { .. } => {
                        proof {
                            assert(qualifiers_in(filter@)[i as int] is CursorFilter);
                        }
                        return true;
                    },
                    _ => {},
                }
                i += 1;
            }
            false
        },
    }
}

/// The highest seq that a resolved filter asks to be above.
pub open spec fn lower_bound(qs: Seq<QualifierView>) -> Option<u64>
    decreases qs.len(),
{
    if qs.len() == 0 {
        None
    } else {
        let rest = lower_bound(qs.drop_last());
        match qs.last() {
            QualifierView::SeqFilter { op: SeqOp::Gt, value } => match rest {
                Some(v) => if v >= value {
                    Some(v)
                } else {
                    Some(value)
                },
                None => Some(value),
            },
            _ => rest,
        }
    }
}

/// The lowest seq that a resolved filter asks to be below.
pub open spec fn upper_bound(qs: Seq<QualifierView>) -> Option<u64>
    decreases qs.len(),
{
    if qs.len() == 0 {
        None
    } else {
        let rest = upper_bound(qs.drop_last());
        match qs.last() {
            QualifierView::SeqFilter { op: SeqOp::Lt, value } => match rest {
                Some(v) => if v <= value {
                    Some(v)
                } else {
                    Some(value)
                },
                None => Some(value),
            },
            _ => rest,
        }
    }
}

/// The bounds of a resolved filter on the seq, both exclusive: the tightest of
/// those it holds.
pub fn resolved_bounds(filter: &ParsedFilter) -> (r: (Option<u64>, Option<u64>))
    ensures
        r.0 == lower_bound(qualifiers_in(filter@)),
        r.1 == upper_bound(qualifiers_in(filter@)),
{
    let qs = match filter {
        ParsedFilter::All => return (None, None),
        ParsedFilter::Nothing => return (None, None),
        ParsedFilter::Qualifiers(qs) => qs,
    };
    let ghost views = qualifier_views(qs@);
    let mut low: Option<u64> = None;
    let mut high: Option<u64> = None;
    let mut i: usize = 0;
    proof {
        assert(views.take(0) =~= seq![]);
    }
    while i < qs.len()
        invariant
            views == qualifier_views(qs@),
            i <= qs@.len(),
            low == lower_bound(views.take(i as int)),
            high == upper_bound(views.take(i as int)),
        decreases qs@.len() - i,
    {
        proof {
            assert(views.take(i + 1).drop_last() =~= views.take(i as int));
            assert(views.take(i + 1).last() == qs@[i as int]@);
        }
        match &qs[i] {
            Qualifier::SeqFilter { op, value } => match op {
                SeqOp::Gt => {
                    low = match low {
                        Some(v) => if v >= *value {
                            Some(v)
                        } else {
                            Some(*value)
                        },
                        None => Some(*value),
                    };
                },
                SeqOp::Lt => {
                    high = match high {
                        Some(v) => if v <= *value {
                            Some(v)
                        } else {
                            Some(*value)
                        },
                        None => Some(*value),
                    };
                },
            },
            _ => {},
        }
        i += 1;
    }
    proof {
        assert(views.take(views.len() as int) =~= views);
    }
    (low, high)
}

/// The seq after `n`, or the last one.
pub open spec fn next_seq(n: u64) -> u64 {
    if n == u64::MAX {
        n
    } else {
        (n + 1) as u64
    }
}

/// The seq before `n`, or the first one.
pub open spec fn previous_seq(n: u64) -> u64 {
    if n == 0 {
        0
    } else {
        (n - 1) as u64
    }
}

/// The range of seqs that a resolved filter asks for, both ends inclusive.
pub open spec fn seq_range(filter: Option<FilterView>) -> (Option<u64>, Option<u64>) {
    match filter {
        None => (None, None),
        Some(f) => (
            match lower_bound(qualifiers_in(f)) {
                Some(v) => Some(next_seq(v)),
                None => None,
            },
            match upper_bound(qualifiers_in(f)) {
                Some(v) => Some(previous_seq(v)),
                None => None,
            },
        ),
    }
}

/// What an optional filter selects.
pub open spec fn optional_filter(filter: Option<ParsedFilter>) -> Option<FilterView> {
    match filter {
        Some(f) => Some(f@),
        None => None,
    }
}

/// The range of seqs that a resolved filter asks for, both ends inclusive.
pub fn resolved_seq_range(filter: &Option<ParsedFilter>) -> (r: (Option<u64>, Option<u64>))
    ensures
        r == seq_range(optional_filter(*filter)),
{
    match filter {
        None => (None, None),
        Some(f) => {
            let (low, high) = resolved_bounds(f);
            let from = match low {
                Some(v) => Some(v.saturating_add(1)),
                None => None,
            };
            let to = match high {
                Some(v) => Some(v.saturating_sub(1)),
                None => None,
            };
            (from, to)
        },
    }
}

/// Whether a window that begins at `from` begins before what is still held, and
/// then where that begins.
pub open spec fn evicted(from: u64, oldest: Option<u64>) -> Option<u64> {
    match oldest {
        Some(o) => if o > from {
            Some(o)
        } else {
            None
        },
        None => None,
    }
}

/// Whether a window that begins at `from` begins before what is still held, and
/// then where that begins.
pub fn evicted_below(from: u64, oldest: Option<u64>) -> (r: Option<u64>)
    ensures
        r == evicted(from, oldest),
{
    match oldest {
        Some(o) => if o > from {
            Some(o)
        } else {
            None
        },
        None => None,
    }
}

/// Whether the window that a resolved filter asks for begins before what is
/// still held. One without a lower bound asks for no beginning.
pub fn evicted_before_window(filter: &Option<ParsedFilter>, oldest: Option<u64>) -> (r: Option<u64>)
    ensures
        r == (match seq_range(optional_filter(*filter)).0 {
            Some(from) => evicted(from, oldest),
            None => None,
        }),
{
    let (from, _) = resolved_seq_range(filter);
    match from {
        Some(from) => evicted_below(from, oldest),
        None => None,
    }
}

/// The bounds of an inclusive range, as a filter has them.
pub open spec fn range_bounds(from: Option<u64>, to: Option<u64>) -> Seq<QualifierView> {
    let low = match from {
        Some(v) => seq![QualifierView::SeqFilter { op: SeqOp::Gt, value: previous_seq(v) }],
        None => seq![],
    };
    let high = match to {
        Some(v) => seq![QualifierView::SeqFilter { op: SeqOp::Lt, value: next_seq(v) }],
        None => seq![],
    };
    low + high
}

/// A filter narrowed to an inclusive range. One that matches nothing stays so.
pub open spec fn narrowed_to(
    filter: Option<FilterView>,
    from: Option<u64>,
    to: Option<u64>,
) -> Option<FilterView> {
    if from is None && to is None {
        filter
    } else {
        match filter {
            Some(FilterView::Nothing) => Some(FilterView::Nothing),
            Some(FilterView::Qualifiers(qs)) => Some(
                FilterView::Qualifiers(qs + range_bounds(from, to)),
            ),
            _ => Some(FilterView::Qualifiers(range_bounds(from, to))),
        }
    }
}

/// Fold an inclusive range of seqs into a filter.
///
/// **Into the filter rather than beside it**: what is known to be missing of a
/// window is read off the filter's bounds, and a range carried as a loose
/// parameter would never reach it. It also makes a range compose with the bound
/// of a bookmark: the tighter of the two holds.
///
/// Both ends are inclusive, so that a window of an anchor and nothing around it
/// holds the anchor.
pub fn lower_seq_range(filter: Option<ParsedFilter>, from: Option<u64>, to: Option<u64>) -> (r:
    Option<ParsedFilter>)
    ensures
        optional_filter(r) == narrowed_to(optional_filter(filter), from, to),
{
    if from.is_none() && to.is_none() {
        return filter;
    }
    let ghost bounds = range_bounds(from, to);
    let mut qs: Vec<Qualifier> = match filter {
        Some(ParsedFilter::Nothing) => return Some(ParsedFilter::Nothing),
        Some(ParsedFilter::Qualifiers(qs)) => qs,
        _ => Vec::new(),
    };
    let ghost before = qualifier_views(qs@);
    if let Some(v) = from {
        qs.push(Qualifier::SeqFilter { op: SeqOp::Gt, value: v.saturating_sub(1) });
    }
    if let Some(v) = to {
        qs.push(Qualifier::SeqFilter { op: SeqOp::Lt, value: v.saturating_add(1) });
    }
    proof {
        assert(qualifier_views(qs@) =~= before + bounds);
        assert(Seq::<QualifierView>::empty() + bounds =~= bounds);
    }
    Some(ParsedFilter::Qualifiers(qs))
}

proof fn lemma_bounds_pushed(qs: Seq<QualifierView>, q: QualifierView)
    ensures
        lower_bound(qs.push(q)) == (match q {
            QualifierView::SeqFilter { op: SeqOp::Gt, value } => match lower_bound(qs) {
                Some(v) => if v >= value {
                    Some(v)
                } else {
                    Some(value)
                },
                None => Some(value),
            },
            _ => lower_bound(qs),
        }),
        upper_bound(qs.push(q)) == (match q {
            QualifierView::SeqFilter { op: SeqOp::Lt, value } => match upper_bound(qs) {
                Some(v) => if v <= value {
                    Some(v)
                } else {
                    Some(value)
                },
                None => Some(value),
            },
            _ => upper_bound(qs),
        }),
{
    assert(qs.push(q).drop_last() =~= qs);
}

/// A range that is folded into a filter is the range that the filter then asks
/// for, wherever the filter had no bounds of its own: every end that was given
/// is read back.
pub proof fn folded_ranges_are_read_back(from: Option<u64>, to: Option<u64>)
    requires
        from is Some || to is Some,
        from matches Some(v) ==> v > 0,
        to matches Some(v) ==> v < u64::MAX,
    ensures
        seq_range(narrowed_to(None, from, to)) == (from, to),
        seq_range(narrowed_to(Some(FilterView::All), from, to)) == (from, to),
{
    let empty = Seq::<QualifierView>::empty();
    let bounds = range_bounds(from, to);
    let low = match from {
        Some(v) => empty.push(QualifierView::SeqFilter { op: SeqOp::Gt, value: previous_seq(v) }),
        None => empty,
    };
    if let Some(v) = from {
        lemma_bounds_pushed(
            empty,
            QualifierView::SeqFilter { op: SeqOp::Gt, value: previous_seq(v) },
        );
    }
    if let Some(v) = to {
        lemma_bounds_pushed(low, QualifierView::SeqFilter { op: SeqOp::Lt, value: next_seq(v) });
        assert(bounds =~= low.push(QualifierView::SeqFilter { op: SeqOp::Lt, value: next_seq(v) }));
    } else {
        assert(bounds =~= low);
    }
}

/// Whether a filter that spells `name` as a selector looks at the additional
/// field of that name, and at nothing else.
pub open spec fn reaches_additional(name: Seq<char>) -> bool {
    match filter_of(name + "=x"@, seq![]) {
        Ok(FilterView::Qualifiers(qs)) => {
            &&& qs.len() == 1
            &&& qs[0] matches QualifierView::SelectorPattern(s, _)
            &&& s == SelectorView::AdditionalField(name)
        },
        _ => false,
    }
}

/// The selector that reaches an additional field, where there is one.
///
/// Found by parsing it back rather than by rule: a field may be named `h`,
/// `trace id` or `a=b`, and then a filter spelled with its name looks somewhere
/// else.
pub fn additional_field_selector(name: &str) -> (r: Option<String>)
    ensures
        optional_text(r) == (if reaches_additional(name@) {
            Some(name@)
        } else {
            None
        }),
{
    let readings: Vec<DurationReading> = Vec::new();
    let probe = text::join2(name, "=x");
    proof {
        assert(reading_views(readings@) =~= seq![]);
    }
    match parse_filter(&probe, &readings) {
        Ok(ParsedFilter::Qualifiers(qs)) => {
            proof {
                assert(qualifier_views(qs@).len() == qs@.len());
            }
            if qs.len() != 1 {
                return None;
            }
            proof {
                assert(qualifier_views(qs@)[0] == qs@[0]@);
            }
            match &qs[0] {
                Qualifier::SelectorPattern(Selector::AdditionalField(s), _) => if text::same(
                    s,
                    name,
                ) {
                    Some(text::owned(name))
                } else {
                    None
                },
                _ => None,
            }
        },
        _ => None,
    }
}

/// Whether a token compares the duration.
pub open spec fn is_duration_token(t: Seq<char>) -> bool {
    has_operator(t, 'd', '>') || has_operator(t, 'd', '<')
}

/// The texts behind the duration comparisons of a list of tokens.
pub open spec fn duration_texts(tokens: Seq<Seq<char>>) -> Seq<Seq<char>>
    decreases tokens.len(),
{
    if tokens.len() == 0 {
        seq![]
    } else {
        let t = trimmed(tokens.last());
        if is_duration_token(t) {
            duration_texts(tokens.drop_last()).push(t.skip(3))
        } else {
            duration_texts(tokens.drop_last())
        }
    }
}

/// The texts that a filter reads as durations, in its order.
pub fn duration_literals(input: &str) -> (r: Vec<String>)
    ensures
        r@.map_values(|s: String| s@) == if in_quote(trimmed(input@)) {
            seq![]
        } else {
            duration_texts(comma_split(trimmed(input@)))
        },
{
    let t = text::trim(&text::chars_of(input));
    let mut out: Vec<String> = Vec::new();
    proof {
        assert(out@.map_values(|s: String| s@) =~= seq![]);
    }
    let tokens = match split_on_commas(&t) {
        Ok(tokens) => tokens,
        Err(_) => return out,
    };
    let ghost lists = char_lists(tokens@);
    let mut i: usize = 0;
    proof {
        assert(lists.take(0) =~= seq![]);
    }
    while i < tokens.len()
        invariant
            lists == char_lists(tokens@),
            lists == comma_split(trimmed(input@)),
            i <= tokens@.len(),
            out@.map_values(|s: String| s@) == duration_texts(lists.take(i as int)),
        decreases tokens@.len() - i,
    {
        let token = text::trim(&tokens[i]);
        proof {
            assert(lists.take(i + 1).drop_last() =~= lists.take(i as int));
            assert(lists.take(i + 1).last() == tokens@[i as int]@);
        }
        if begins_with_operator(&token, 'd', '>') || begins_with_operator(&token, 'd', '<') {
            let ghost before = out@;
            let literal = text::text_between(&token, 3, token.len());
            proof {
                assert(literal@ =~= token@.skip(3));
            }
            out.push(literal);
            proof {
                assert(out@.map_values(|s: String| s@) =~= before.map_values(|s: String| s@).push(
                    literal@,
                ));
            }
        }
        i += 1;
    }
    proof {
        assert(lists.take(lists.len() as int) =~= lists);
    }
    out
}

/// A filter means the same under any two sets of readings that agree on its
/// duration texts.
pub proof fn only_duration_texts_are_read(
    input: Seq<char>,
    a: Seq<DurationReadingView>,
    b: Seq<DurationReadingView>,
)
    requires
        forall|i: int|
            0 <= i < duration_texts(comma_split(trimmed(input))).len() ==> reading_of(
                a,
                #[trigger] duration_texts(comma_split(trimmed(input)))[i],
            ) == reading_of(b, duration_texts(comma_split(trimmed(input)))[i]),
    ensures
        filter_of(input, a) == filter_of(input, b),
{
    lemma_only_duration_texts(comma_split(trimmed(input)), a, b);
}

proof fn lemma_only_duration_texts(
    tokens: Seq<Seq<char>>,
    a: Seq<DurationReadingView>,
    b: Seq<DurationReadingView>,
)
    requires
        forall|i: int|
            0 <= i < duration_texts(tokens).len() ==> reading_of(
                a,
                #[trigger] duration_texts(tokens)[i],
            ) == reading_of(b, duration_texts(tokens)[i]),
    ensures
        qualifiers_of(tokens, a) == qualifiers_of(tokens, b),
    decreases tokens.len(),
{
    if tokens.len() > 0 {
        let front = duration_texts(tokens.drop_last());
        let all = duration_texts(tokens);
        assert forall|i: int| 0 <= i < front.len() implies reading_of(a, #[trigger] front[i])
            == reading_of(b, front[i]) by {
            assert(all[i] == front[i]);
        }
        lemma_only_duration_texts(tokens.drop_last(), a, b);
        let t = trimmed(tokens.last());
        if is_duration_token(t) {
            assert(all[all.len() - 1] == t.skip(3));
        }
    }
}

/// A parsed filter never mixes log and span qualifiers, reads at most one
/// cursor, has at least one qualifier, and has no seq comparison.
pub proof fn parsed_filters_are_well_formed(input: Seq<char>, readings: Seq<DurationReadingView>)
    requires
        filter_of(input, readings) is Ok,
    ensures
        ({
            let f = filter_of(input, readings)->Ok_0;
            let qs = qualifiers_in(f);
            &&& !(has_span_qualifier(qs) && has_log_qualifier(qs))
            &&& f is Qualifiers ==> qs.len() > 0
            &&& cursor_count(qs) <= 1
            &&& forall|i: int| 0 <= i < qs.len() ==> !(#[trigger] qs[i] is SeqFilter)
        }),
{
    let f = filter_of(input, readings)->Ok_0;
    if let FilterView::Qualifiers(qs) = f {
        lemma_no_seq_filters(comma_split(trimmed(input)), readings);
    }
}

proof fn lemma_no_seq_filters(tokens: Seq<Seq<char>>, readings: Seq<DurationReadingView>)
    ensures
        qualifiers_of(tokens, readings) matches Ok(qs) ==> forall|i: int|
            0 <= i < qs.len() ==> !(#[trigger] qs[i] is SeqFilter),
    decreases tokens.len(),
{
    if tokens.len() > 0 {
        lemma_no_seq_filters(tokens.drop_last(), readings);
    }
}

#[verifier::external_type_specification]
#[verifier::external_body]
pub struct ExRegex(regex::Regex);

/// The text that a regex was compiled from, as `regex::Regex::as_str` gives it.
pub uninterp spec fn regex_source(r: regex::Regex) -> Seq<char>;

/// The text of the error that `regex::Regex::new` makes of an expression, where
/// it does not compile.
pub uninterp spec fn regex_failure(expression: Seq<char>) -> Option<Seq<char>>;

/// `regex::Regex::new`: the compiled expression, which keeps the text it was
/// compiled from, or the text of the error. Which of the two it is depends on
/// the expression alone.
#[verifier::external_body]
fn compile(expression: &str) -> (r: Result<regex::Regex, String>)
    ensures
        match r {
            Ok(compiled) => regex_failure(expression@) is None && regex_source(compiled)
                == expression@,
            Err(e) => regex_failure(expression@) == Some(e@),
        },
{
    regex::Regex::new(expression).map_err(|e| e.to_string())
}

/// Whether a text is one token of a filter: it holds no comma and no quote, has no white
/// space at its ends, and is neither of the two words that are filters of their own.
pub open spec fn is_one_token(t: Seq<char>) -> bool {
    &&& t.len() > 0
    &&& !t.contains(',')
    &&& !t.contains('"')
    &&& !is_white(t[0])
    &&& !is_white(t.last())
    &&& t != "ALL"@
    &&& t != "NONE"@
}

proof fn lemma_unquoted(s: Seq<char>)
    requires
        !s.contains('"'),
    ensures
        !in_quote(s),
    decreases s.len(),
{
    if s.len() > 0 {
        let front = s.drop_last();
        assert(s[s.len() - 1] != '"');
        assert forall|i: int| 0 <= i < front.len() implies front[i] != '"' by {
            assert(front[i] == s[i]);
        }
        lemma_unquoted(front);
    }
}

proof fn lemma_unsplit(s: Seq<char>)
    requires
        !s.contains(','),
    ensures
        comma_split(s) == seq![s],
    decreases s.len(),
{
    if s.len() == 0 {
        assert(s =~= seq![]);
    } else {
        let front = s.drop_last();
        assert(s[s.len() - 1] != ',');
        assert forall|i: int| 0 <= i < front.len() implies front[i] != ',' by {
            assert(front[i] == s[i]);
        }
        lemma_unsplit(front);
        assert(front.push(s.last()) =~= s);
        assert(comma_split(s) =~= seq![s]);
    }
}

/// A filter of one token means what the token means.
pub proof fn one_token_is_a_filter(t: Seq<char>, readings: Seq<DurationReadingView>)
    requires
        is_one_token(t),
    ensures
        filter_of(t, readings) == (match qualifier_of(t, readings) {
            Ok(q) => Ok::<FilterView, FilterErrorView>(FilterView::Qualifiers(seq![q])),
            Err(e) => Err::<FilterView, FilterErrorView>(e),
        }),
{
    trimmed_texts_stay(t);
    lemma_unquoted(t);
    lemma_unsplit(t);
    let tokens = comma_split(t);
    assert(tokens.drop_last() =~= seq![]);
    reveal_with_fuel(qualifiers_of, 2);
    if let Ok(q) = qualifier_of(t, readings) {
        let qs = seq![q];
        assert(Seq::<QualifierView>::empty().push(q) =~= qs);
        if has_span_qualifier(qs) && has_log_qualifier(qs) {
            let i = choose|i: int| 0 <= i < qs.len() && is_span_qualifier_view(#[trigger] qs[i]);
            let k = choose|k: int| 0 <= k < qs.len() && is_log_qualifier_view(#[trigger] qs[k]);
            assert(qs[i] == q && qs[k] == q);
        }
        assert(qs.drop_last() =~= seq![]);
        reveal_with_fuel(cursor_count, 2);
    }
}

/// A comparison with a level is read as it is written: `l>=` asks for the level and those
/// above it, `l<=` for the level and those below it, and `l=` for it alone.
pub proof fn level_comparisons_are_read_as_written(
    name: Seq<char>,
    level: Level,
    readings: Seq<DurationReadingView>,
)
    requires
        Level::of_name(name) == Some(level),
        name.len() > 0,
        !name.contains(','),
        !name.contains('"'),
        !is_white(name.last()),
    ensures
        filter_of("l>="@ + name, readings) == Ok::<FilterView, FilterErrorView>(
            FilterView::Qualifiers(seq![QualifierView::LevelFilter { op: LevelOp::Gte, level }]),
        ),
        filter_of("l<="@ + name, readings) == Ok::<FilterView, FilterErrorView>(
            FilterView::Qualifiers(seq![QualifierView::LevelFilter { op: LevelOp::Lte, level }]),
        ),
        filter_of("l="@ + name, readings) == Ok::<FilterView, FilterErrorView>(
            FilterView::Qualifiers(seq![QualifierView::LevelFilter { op: LevelOp::Eq, level }]),
        ),
{
    reveal_strlit("l>=");
    reveal_strlit("l<=");
    reveal_strlit("l=");
    lemma_operator_token("l>="@, name, readings);
    lemma_operator_token("l<="@, name, readings);
    lemma_operator_token("l="@, name, readings);
}

/// `t` is an operator and an operand, and so one token.
proof fn lemma_operator_token(op: Seq<char>, rest: Seq<char>, readings: Seq<DurationReadingView>)
    requires
        op == "l>="@ || op == "l<="@ || op == "l="@ || op == "d>="@ || op == "d<="@ || op == "b>="@
            || op == "b<="@ || op == "c>="@ || op == "c<="@,
        rest.len() > 0,
        !rest.contains(','),
        !rest.contains('"'),
        !is_white(rest.last()),
    ensures
        is_one_token(op + rest),
        (op + rest).skip(op.len() as int) == rest,
        (op + rest).take(op.len() as int) == op,
        op == "l="@ <==> op.len() == 2,
        op != "l="@ ==> op.len() == 3,
        filter_of(op + rest, readings) == (match qualifier_of(op + rest, readings) {
            Ok(q) => Ok::<FilterView, FilterErrorView>(FilterView::Qualifiers(seq![q])),
            Err(e) => Err::<FilterView, FilterErrorView>(e),
        }),
{
    reveal_strlit("l>=");
    reveal_strlit("l<=");
    reveal_strlit("l=");
    reveal_strlit("d>=");
    reveal_strlit("d<=");
    reveal_strlit("b>=");
    reveal_strlit("b<=");
    reveal_strlit("c>=");
    reveal_strlit("c<=");
    reveal_strlit("ALL");
    reveal_strlit("NONE");
    let t = op + rest;
    assert(t.skip(op.len() as int) =~= rest);
    assert(t.take(op.len() as int) =~= op);
    assert(t[0] == op[0]);
    assert(t != "ALL"@ && t != "NONE"@) by {
        assert("ALL"@[0] == 'A' && "NONE"@[0] == 'N');
    }
    assert(!t.contains(',') && !t.contains('"')) by {
        assert forall|i: int| 0 <= i < t.len() implies t[i] != ',' && t[i] != '"' by {
            if i < op.len() {
                assert(t[i] == op[i]);
            } else {
                assert(t[i] == rest[i - op.len()]);
            }
        }
    }
    assert(t.last() == rest.last());
    one_token_is_a_filter(t, readings);
}

/// A comparison with a duration, a bookmark or a cursor is read as it is written: the
/// sign tells which side is asked for, and what follows it tells the bound. A cursor can
/// only be read on.
pub proof fn other_comparisons_are_read_as_written(
    rest: Seq<char>,
    readings: Seq<DurationReadingView>,
)
    requires
        rest.len() > 0,
        !rest.contains(','),
        !rest.contains('"'),
        !is_white(rest[0]),
        !is_white(rest.last()),
    ensures
        reading_of(readings, rest) matches Some(v) ==> {
            &&& filter_of("d>="@ + rest, readings) == Ok::<FilterView, FilterErrorView>(
                FilterView::Qualifiers(seq![QualifierView::DurationFilter(DurationOp::Gte, v)]),
            )
            &&& filter_of("d<="@ + rest, readings) == Ok::<FilterView, FilterErrorView>(
                FilterView::Qualifiers(seq![QualifierView::DurationFilter(DurationOp::Lte, v)]),
            )
        },
        reading_of(readings, rest) is None ==> filter_of("d>="@ + rest, readings) is Err
            && filter_of("d<="@ + rest, readings) is Err,
        is_bookmark_name(rest) ==> {
            &&& filter_of("b>="@ + rest, readings) == Ok::<FilterView, FilterErrorView>(
                FilterView::Qualifiers(
                    seq![QualifierView::BookmarkFilter { op: BookmarkOp::Gte, name: rest }],
                ),
            )
            &&& filter_of("b<="@ + rest, readings) == Ok::<FilterView, FilterErrorView>(
                FilterView::Qualifiers(
                    seq![QualifierView::BookmarkFilter { op: BookmarkOp::Lte, name: rest }],
                ),
            )
            &&& filter_of("c>="@ + rest, readings) == Ok::<FilterView, FilterErrorView>(
                FilterView::Qualifiers(seq![QualifierView::CursorFilter { name: rest }]),
            )
        },
        !is_bookmark_name(rest) ==> {
            &&& filter_of("b>="@ + rest, readings) == Err::<FilterView, FilterErrorView>(
                FilterErrorView::InvalidBookmarkName(rest),
            )
            &&& filter_of("b<="@ + rest, readings) == Err::<FilterView, FilterErrorView>(
                FilterErrorView::InvalidBookmarkName(rest),
            )
            &&& filter_of("c>="@ + rest, readings) == Err::<FilterView, FilterErrorView>(
                FilterErrorView::InvalidBookmarkName(rest),
            )
        },
        filter_of("c<="@ + rest, readings) == Err::<FilterView, FilterErrorView>(
            FilterErrorView::CursorLteNotSupported,
        ),
{
    reveal_strlit("d>=");
    reveal_strlit("d<=");
    reveal_strlit("b>=");
    reveal_strlit("b<=");
    reveal_strlit("c>=");
    reveal_strlit("c<=");
    trimmed_texts_stay(rest);
    lemma_operator_token("d>="@, rest, readings);
    lemma_operator_token("d<="@, rest, readings);
    lemma_operator_token("b>="@, rest, readings);
    lemma_operator_token("b<="@, rest, readings);
    lemma_operator_token("c>="@, rest, readings);
    lemma_operator_token("c<="@, rest, readings);
}

/// The names of bookmarks are made of letters, digits, `-`, `_` and `/`.
pub proof fn bookmark_names_are_plain(name: Seq<char>, i: int)
    requires
        is_bookmark_name(name),
        0 <= i < name.len(),
    ensures
        ('a' <= name[i] <= 'z') || ('A' <= name[i] <= 'Z') || ('0' <= name[i] <= '9') || name[i]
            == '-' || name[i] == '_' || name[i] == '/',
{
    assert(is_bookmark_char(name[i]));
}

/// Each selector has a short name, and any other name is that of an additional field.
pub proof fn selectors_go_by_their_names(name: Seq<char>)
    ensures
        selector_of(name) is Message <==> name == "m"@,
        selector_of(name) is FullMessage <==> name == "fm"@,
        selector_of(name) is MessageOrFull <==> name == "mfm"@,
        selector_of(name) is Host <==> name == "h"@,
        selector_of(name) is Facility <==> name == "fa"@,
        selector_of(name) is File <==> name == "fi"@,
        selector_of(name) is Line <==> name == "ln"@,
        selector_of(name) is SpanName <==> name == "sn"@,
        selector_of(name) is ServiceName <==> name == "sv"@,
        selector_of(name) is SpanStatus <==> name == "st"@,
        selector_of(name) is SpanKind <==> name == "sk"@,
        selector_of(name) matches SelectorView::AdditionalField(field) ==> field == name,
{
    reveal_strlit("m");
    reveal_strlit("fm");
    reveal_strlit("mfm");
    reveal_strlit("h");
    reveal_strlit("fa");
    reveal_strlit("fi");
    reveal_strlit("ln");
    reveal_strlit("sn");
    reveal_strlit("sv");
    reveal_strlit("st");
    reveal_strlit("sk");
    assert("m"@.len() == 1 && "fm"@.len() == 2 && "mfm"@.len() == 3 && "h"@.len() == 1);
    assert("m"@[0] == 'm' && "h"@[0] == 'h');
    assert("fm"@[0] == 'f' && "fm"@[1] == 'm' && "fa"@[0] == 'f' && "fa"@[1] == 'a' && "fi"@[0]
        == 'f' && "fi"@[1] == 'i' && "ln"@[0] == 'l' && "sn"@[0] == 's' && "sn"@[1] == 'n'
        && "sv"@[0] == 's' && "sv"@[1] == 'v' && "st"@[0] == 's' && "st"@[1] == 't' && "sk"@[0]
        == 's' && "sk"@[1] == 'k');
}

/// A token `selector=pattern` looks for the pattern, in small letters unless it is a
/// regex, in what the selector names and nowhere else; a token without either is looked
/// for everywhere.
pub proof fn selected_patterns_are_read_as_written(
    name: Seq<char>,
    pattern: Seq<char>,
    readings: Seq<DurationReadingView>,
)
    requires
        name.len() > 0,
        name != "l"@,
        !name.contains(','),
        !name.contains('"'),
        !name.contains('='),
        !name.contains('<'),
        !name.contains('>'),
        name[0] != '/',
        !is_white(name[0]),
        !is_white(name.last()),
        pattern.len() > 0,
        !pattern.contains(','),
        !pattern.contains('"'),
        pattern[0] != '/',
        !is_white(pattern[0]),
        !is_white(pattern.last()),
    ensures
        filter_of(name + seq!['='] + pattern, readings) == Ok::<FilterView, FilterErrorView>(
            FilterView::Qualifiers(
                seq![
                    QualifierView::SelectorPattern(
                        selector_of(name),
                        PatternView::Substring(lowercase_text(pattern)),
                    ),
                ],
            ),
        ),
        name != "ALL"@ && name != "NONE"@ ==> filter_of(name, readings) == Ok::<
            FilterView,
            FilterErrorView,
        >(
            FilterView::Qualifiers(
                seq![QualifierView::BarePattern(PatternView::Substring(lowercase_text(name)))],
            ),
        ),
{
    reveal_strlit("l");
    reveal_strlit("ALL");
    reveal_strlit("NONE");
    let t = name + seq!['='] + pattern;
    assert(t[name.len() as int] == '=');
    assert("ALL"@[0] == 'A' && "ALL"@[1] == 'L' && "ALL"@[2] == 'L' && "NONE"@[0] == 'N' && "NONE"@[1]
        == 'O' && "NONE"@[2] == 'N' && "NONE"@[3] == 'E');
    assert(t != "ALL"@ && t != "NONE"@);
    assert forall|i: int| 0 <= i < t.len() implies t[i] != ',' && t[i] != '"' by {
        if i < name.len() {
            assert(t[i] == name[i]);
        } else if i > name.len() {
            assert(t[i] == pattern[i - name.len() - 1]);
        }
    }
    assert(t.last() == pattern.last());
    assert(t[0] == name[0]);
    one_token_is_a_filter(t, readings);
    first_and_last_places(t, '=');
    assert(first_at(t, '=') == name.len()) by {
        if first_at(t, '=') < name.len() {
            assert(t[first_at(t, '=')] == name[first_at(t, '=')]);
        }
    }
    assert(t.take(name.len() as int) =~= name);
    assert(t.skip(name.len() as int + 1) =~= pattern);
    trimmed_texts_stay(name);
    trimmed_texts_stay(pattern);
    assert(pattern[0] != '"');
    if name.len() >= 2 {
        assert(t[1] == name[1]);
    } else {
        assert("l"@.len() == 1 && "l"@[0] == 'l');
        if name[0] == 'l' {
            assert(name =~= "l"@);
        }
    }
    assert(qualifier_of(t, readings) == matching_qualifier(t));
    if name != "ALL"@ && name != "NONE"@ {
        one_token_is_a_filter(name, readings);
        first_and_last_places(name, '=');
        if name.len() >= 2 {
            assert(name[1] != '=' && name[1] != '<' && name[1] != '>');
        }
        assert(name[0] != '"');
        assert(qualifier_of(name, readings) == matching_qualifier(name));
    }
}

/// What stands in double quotes is looked for as it is, commas included.
#[verifier::rlimit(40)]
pub proof fn quoted_texts_are_taken_whole(inner: Seq<char>, readings: Seq<DurationReadingView>)
    requires
        !inner.contains('"'),
    ensures
        qualifier_of(seq!['"'] + inner + seq!['"'], readings) == Ok::<QualifierView, FilterErrorView>(
            QualifierView::BarePattern(PatternView::Substring(lowercase_text(inner))),
        ),
        comma_split(seq!['"'] + inner + seq!['"']) == seq![seq!['"'] + inner + seq!['"']],
        !in_quote(seq!['"'] + inner + seq!['"']),
{
    let t = seq!['"'] + inner + seq!['"'];
    assert(t[0] == '"' && t.last() == '"');
    assert(t.subrange(1, t.len() - 1) =~= inner);
    let open = seq!['"'] + inner;
    lemma_open_quote(inner);
    assert(t.drop_last() =~= open);
    assert(open.push('"') =~= t);
    assert(comma_split(t) =~= seq![t]);
}

proof fn lemma_open_quote(inner: Seq<char>)
    requires
        !inner.contains('"'),
    ensures
        in_quote(seq!['"'] + inner),
        comma_split(seq!['"'] + inner) == seq![seq!['"'] + inner],
    decreases inner.len(),
{
    let t = seq!['"'] + inner;
    if inner.len() == 0 {
        assert(t =~= seq!['"']);
        assert(t.drop_last() =~= seq![]);
        reveal_with_fuel(in_quote, 2);
        reveal_with_fuel(comma_split, 2);
        assert(Seq::<char>::empty().push('"') =~= t);
        assert(comma_split(t) =~= seq![t]);
    } else {
        let front = inner.drop_last();
        assert(inner[inner.len() - 1] != '"');
        assert forall|i: int| 0 <= i < front.len() implies front[i] != '"' by {
            assert(front[i] == inner[i]);
        }
        lemma_open_quote(front);
        assert(t.drop_last() =~= seq!['"'] + front);
        assert((seq!['"'] + front).push(inner.last()) =~= t);
        assert(comma_split(t) =~= seq![t]);
    }
}

/// A regex stands between slashes. It ignores case exactly where an `i` follows the last
/// of them, and is then compiled to do so.
pub proof fn regexes_stand_between_slashes(source: Seq<char>, flags: Seq<char>)
    requires
        !flags.contains('/'),
    ensures
        ({
            let t = seq!['/'] + source + seq!['/'] + flags;
            let expression = if flags.contains('i') {
                seq!['(', '?', 'i', ')'] + source
            } else {
                source
            };
            &&& regex_failure(expression) is None ==> pattern_of(t) == Ok::<
                PatternView,
                FilterErrorView,
            >(PatternView::Regex { source, expression, case_insensitive: flags.contains('i') })
            &&& regex_failure(expression) matches Some(e) ==> pattern_of(t) == Err::<
                PatternView,
                FilterErrorView,
            >(FilterErrorView::InvalidRegex(e))
        }),
{
    let t = seq!['/'] + source + seq!['/'] + flags;
    let inner = source + seq!['/'] + flags;
    assert(t[0] == '/');
    assert(t.skip(1) =~= inner);
    first_and_last_places(inner, '/');
    assert(inner[source.len() as int] == '/');
    assert(last_at(inner, '/') == source.len()) by {
        let at = last_at(inner, '/');
        if at < source.len() {
            assert(inner[source.len() as int] != '/');
        }
        if at > source.len() {
            assert(inner[at] == flags[at - source.len() - 1]);
        }
    }
    assert(inner.take(source.len() as int) =~= source);
    assert(inner.skip(source.len() as int + 1) =~= flags);
}

/// The tokens of a filter are read one by one and in their order, and the empty ones are
/// passed over: those of two runs are those of the one and then those of the other.
pub proof fn tokens_are_read_in_order(
    a: Seq<Seq<char>>,
    b: Seq<Seq<char>>,
    readings: Seq<DurationReadingView>,
)
    ensures
        qualifiers_of(a, readings) matches Ok(qa) ==> (qualifiers_of(b, readings) matches Ok(qb)
            ==> qualifiers_of(a + b, readings) == Ok::<Seq<QualifierView>, FilterErrorView>(qa + qb)),
        qualifiers_of(a, readings) is Err ==> qualifiers_of(a + b, readings) == qualifiers_of(
            a,
            readings,
        ),
        qualifiers_of(a, readings) is Ok && qualifiers_of(b, readings) is Err ==> qualifiers_of(
            a + b,
            readings,
        ) == qualifiers_of(b, readings),
    decreases b.len(),
{
    if b.len() == 0 {
        assert(a + b =~= a);
        if let Ok(qa) = qualifiers_of(a, readings) {
            assert(qa + Seq::<QualifierView>::empty() =~= qa);
        }
    } else {
        let front = b.drop_last();
        assert((a + b).drop_last() =~= a + front);
        assert((a + b).last() == b.last());
        tokens_are_read_in_order(a, front, readings);
        if let (Ok(qa), Ok(qf)) = (qualifiers_of(a, readings), qualifiers_of(front, readings)) {
            if let Ok(q) = qualifier_of(trimmed(b.last()), readings) {
                assert((qa + qf).push(q) =~= qa + qf.push(q));
            }
        }
    }
}

/// Commas outside quotes part a filter, and nothing else does: joined by commas again,
/// its parts are the filter.
pub proof fn commas_part_a_filter(a: Seq<char>, b: Seq<char>)
    requires
        !in_quote(a),
    ensures
        comma_split(a + seq![','] + b) == comma_split(a) + comma_split(b),
        in_quote(a + seq![','] + b) == in_quote(b),
    decreases b.len(),
{
    let t = a + seq![','] + b;
    lemma_split_nonempty(a);
    if b.len() == 0 {
        assert(t =~= a.push(','));
        assert(t.drop_last() =~= a);
        assert(b =~= seq![]);
        assert(comma_split(t) =~= comma_split(a) + comma_split(b));
    } else {
        let front = b.drop_last();
        commas_part_a_filter(a, front);
        assert(t.drop_last() =~= a + seq![','] + front);
        assert(t.last() == b.last());
        lemma_split_nonempty(front);
        let x = comma_split(a);
        let y = comma_split(front);
        if b.last() == ',' && !in_quote(front) {
            assert((x + y).push(seq![]) =~= x + y.push(seq![]));
        } else {
            assert((x + y).last() == y.last());
            assert((x + y).update((x + y).len() - 1, y.last().push(b.last())) =~= x + y.update(
                y.len() - 1,
                y.last().push(b.last()),
            ));
        }
    }
}

proof fn lemma_split_nonempty(s: Seq<char>)
    ensures
        comma_split(s).len() > 0,
    decreases s.len(),
{
    if s.len() > 0 {
        lemma_split_nonempty(s.drop_last());
    }
}

/// The two words that are filters of their own: one lets everything through, the other
/// nothing. An empty text is no filter.
pub proof fn all_and_none_are_told_apart(readings: Seq<DurationReadingView>)
    ensures
        filter_of("ALL"@, readings) == Ok::<FilterView, FilterErrorView>(FilterView::All),
        filter_of("NONE"@, readings) == Ok::<FilterView, FilterErrorView>(FilterView::Nothing),
        filter_of(""@, readings) == Err::<FilterView, FilterErrorView>(FilterErrorView::Empty),
{
    reveal_strlit("ALL");
    reveal_strlit("NONE");
    reveal_strlit("");
    trimmed_texts_stay("ALL"@);
    trimmed_texts_stay("NONE"@);
    trimmed_texts_stay(""@);
    assert("ALL"@.len() == 3 && "NONE"@.len() == 4);
}

/// Which selectors concern spans only, and which records only; levels concern records and
/// durations spans.
pub proof fn spans_and_records_have_their_own_selectors(s: SelectorView, p: PatternView)
    ensures
        is_span_qualifier_view(QualifierView::SelectorPattern(s, p)) <==> s == SelectorView::SpanName
            || s == SelectorView::ServiceName || s == SelectorView::SpanStatus || s
            == SelectorView::SpanKind,
        is_log_qualifier_view(QualifierView::SelectorPattern(s, p)) <==> !(s is AdditionalField)
            && !is_span_qualifier_view(QualifierView::SelectorPattern(s, p)),
        !is_span_qualifier_view(QualifierView::BarePattern(p)),
        !is_log_qualifier_view(QualifierView::BarePattern(p)),
        forall|op: LevelOp, level: Level|
            #[trigger] is_log_qualifier_view(QualifierView::LevelFilter { op, level }),
        forall|op: DurationOp, v: DurationMs|
            #[trigger] is_span_qualifier_view(QualifierView::DurationFilter(op, v)),
{
}

/// The bounds of a resolved filter are the tightest of those it names: it names each of
/// them, and none of its comparisons is tighter.
pub proof fn resolved_bounds_are_the_tightest(qs: Seq<QualifierView>, i: int)
    requires
        0 <= i < qs.len(),
    ensures
        qs[i] matches QualifierView::SeqFilter { op: SeqOp::Gt, value } ==> (lower_bound(
            qs,
        ) matches Some(low) && low >= value),
        qs[i] matches QualifierView::SeqFilter { op: SeqOp::Lt, value } ==> (upper_bound(
            qs,
        ) matches Some(high) && high <= value),
        lower_bound(qs) matches Some(low) ==> qs.contains(
            QualifierView::SeqFilter { op: SeqOp::Gt, value: low },
        ),
        upper_bound(qs) matches Some(high) ==> qs.contains(
            QualifierView::SeqFilter { op: SeqOp::Lt, value: high },
        ),
    decreases qs.len(),
{
    reveal_with_fuel(lower_bound, 2);
    reveal_with_fuel(upper_bound, 2);
    let front = qs.drop_last();
    let n = qs.len() - 1;
    if front.len() > 0 {
        let k = if i < n {
            i
        } else {
            0
        };
        resolved_bounds_are_the_tightest(front, k);
        assert(front[k] == qs[k]);
    }
    if let Some(low) = lower_bound(qs) {
        let q = QualifierView::SeqFilter { op: SeqOp::Gt, value: low };
        if qs[n] == q {
            assert(qs.contains(q));
        } else {
            let k = choose|k: int| 0 <= k < front.len() && front[k] == q;
            assert(qs[k] == q);
        }
    }
    if let Some(high) = upper_bound(qs) {
        let q = QualifierView::SeqFilter { op: SeqOp::Lt, value: high };
        if qs[n] == q {
            assert(qs.contains(q));
        } else {
            let k = choose|k: int| 0 <= k < front.len() && front[k] == q;
            assert(qs[k] == q);
        }
    }
}

/// The range that a resolved filter asks for is what lies strictly between its bounds,
/// and a filter without a bound asks for no end on that side.
pub proof fn ranges_lie_between_the_bounds(f: FilterView, seq: u64)
    ensures
        ({
            let (from, to) = seq_range(Some(f));
            let low = lower_bound(qualifiers_in(f));
            let high = upper_bound(qualifiers_in(f));
            &&& from is Some <==> low is Some
            &&& to is Some <==> high is Some
            &&& low matches Some(l) ==> (l < u64::MAX ==> (from->0 <= seq <==> seq > l))
            &&& high matches Some(h) ==> (h > 0 ==> (seq <= to->0 <==> seq < h))
        }),
        seq_range(None) == (None::<u64>, None::<u64>),
{
}

/// Something was lost before a window exactly where what is still held begins behind its
/// beginning, and then it is told where.
pub proof fn losses_lie_before_the_window(from: u64, oldest: Option<u64>)
    ensures
        evicted(from, oldest) is Some <==> oldest is Some && from < oldest->0,
        evicted(from, oldest) is Some ==> evicted(from, oldest) == oldest,
{
}

/// A range is folded into a filter beside what the filter asks for already; the filter
/// that matches nothing stays, and no range changes nothing.
pub proof fn folding_only_narrows(
    filter: Option<FilterView>,
    from: Option<u64>,
    to: Option<u64>,
    q: QualifierView,
)
    ensures
        from is None && to is None ==> narrowed_to(filter, from, to) == filter,
        filter == Some(FilterView::Nothing) ==> narrowed_to(filter, from, to) == Some(
            FilterView::Nothing,
        ),
        filter matches Some(FilterView::Qualifiers(qs)) ==> (narrowed_to(
            filter,
            from,
            to,
        ) matches Some(FilterView::Qualifiers(after)) && (qs.contains(q) ==> after.contains(q)) && (
        from matches Some(v) ==> (v > 0 ==> after.contains(
            QualifierView::SeqFilter { op: SeqOp::Gt, value: (v - 1) as u64 },
        ))) && (to matches Some(v) ==> (v < u64::MAX ==> after.contains(
            QualifierView::SeqFilter { op: SeqOp::Lt, value: (v + 1) as u64 },
        )))),
{
    if let Some(FilterView::Qualifiers(qs)) = filter {
        let after = qs + range_bounds(from, to);
        if qs.contains(q) {
            let i = choose|i: int| 0 <= i < qs.len() && qs[i] == q;
            assert(after[i] == q);
        }
        if from is Some {
            assert(after[qs.len() as int] == range_bounds(from, to)[0]);
        }
        if to is Some {
            assert(after[after.len() - 1] == range_bounds(from, to).last());
        }
    }
}

/// A filter refers to something outside it where it has a bookmark or a cursor, and only
/// there.
pub proof fn bookmarks_and_cursors_are_references(qs: Seq<QualifierView>, i: int)
    requires
        0 <= i < qs.len(),
    ensures
        qs[i] is BookmarkFilter ==> has_reference(qs),
        qs[i] is CursorFilter ==> has_reference(qs),
        has_reference(qs) ==> exists|j: int|
            0 <= j < qs.len() && ((#[trigger] qs[j]) is BookmarkFilter || qs[j] is CursorFilter),
{
    if qs[i] is BookmarkFilter || qs[i] is CursorFilter {
        assert(is_reference(qs[i]));
    }
}

/// A duration is read as its text was read first; a text that was not read is none.
pub proof fn durations_are_read_by_their_text(
    readings: Seq<DurationReadingView>,
    text: Seq<char>,
    i: int,
)
    requires
        0 <= i <= readings.len(),
        forall|j: int| 0 <= j < i ==> (#[trigger] readings[j]).text != text,
    ensures
        i < readings.len() && readings[i].text == text ==> reading_of(readings, text)
            == readings[i].value,
        i == readings.len() ==> reading_of(readings, text) is None,
    decreases readings.len(),
{
    if i > 0 {
        assert(readings[0].text != text);
        let rest = readings.skip(1);
        assert forall|j: int| 0 <= j < i - 1 implies (#[trigger] rest[j]).text != text by {
            assert(rest[j] == readings[j + 1]);
        }
        if i < readings.len() {
            assert(rest[i - 1] == readings[i]);
        }
        durations_are_read_by_their_text(rest, text, i - 1);
    }
}

} // verus!
