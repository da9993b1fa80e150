//! Patterns on the names of the directories to pass over.

use crate::path::EntryPath;
use crate::text::from_utf8_lossy;
use regex::Regex;
use vstd::prelude::*;
use vstd::slice::slice_subrange;

verus! {

/// The byte that an ignored entry starts with where the rest is a pattern.
pub const PATTERN_MARK: u8 = 0x23;

/// `regex::Regex`, a compiled regular expression.
#[verifier::external_type_specification]
#[verifier::external_body]
pub struct ExRegex(regex::Regex);

/// `regex::Error`, why a text is no regular expression.
#[verifier::external_type_specification]
#[verifier::external_body]
pub struct ExRegexError(regex::Error);

/// The text that `Regex::new` made `regex` from; `None` where the value was
/// built in another way, with options of its own.
pub uninterp spec fn regex_source(regex: regex::Regex) -> Option<Seq<char>>;

/// Whether `Regex::new` takes `text`.
pub uninterp spec fn regex_accepts(text: Seq<char>) -> bool;

/// Whether the expression that `Regex::new` makes of `text` matches somewhere
/// in `input`.
pub uninterp spec fn regex_match(text: Seq<char>, input: Seq<char>) -> bool;

/// The texts with a `|` between them.
pub open spec fn alternation(texts: Seq<Seq<char>>) -> Seq<char>
    decreases texts.len(),
{
    if texts.len() == 0 {
        Seq::empty()
    } else if texts.len() == 1 {
        texts[0]
    } else {
        alternation(texts.drop_last()).push('|') + texts.last()
    }
}

/// Whether some text matches `input`.
pub open spec fn any_match(texts: Seq<Seq<char>>, input: Seq<char>) -> bool {
    exists|i: int| 0 <= i < texts.len() && regex_match(#[trigger] texts[i], input)
}

/// Whether `c` stands for a flag, or for the sign that switches flags off.
pub open spec fn is_flag(c: char) -> bool {
    c == 'i' || c == 'm' || c == 's' || c == 'U' || c == 'u' || c == 'R' || c == 'x' || c == '-'
}

/// Whether a list of flags may stand in `text`, from the `?` at `start` to the
/// `)` or `:` at `end`.
pub open spec fn is_flag_list(text: Seq<char>, start: int, end: int) -> bool {
    &&& 0 <= start < end < text.len()
    &&& text[start] == '?' && (text[end] == ')' || text[end] == ':')
    &&& forall|i: int| start < i < end ==> is_flag(#[trigger] text[i])
}

/// Whether `text` may ignore white space somewhere: a list of flags right behind
/// a `(` holds an `x`.
pub open spec fn is_verbose(text: Seq<char>) -> bool {
    exists|start: int, end: int, i: int|
        #[trigger] is_flag_list(text, start, end) && start < i < end && #[trigger] text[i] == 'x'
            && 0 < start && text[start - 1] == '('
}

/// Whether Unicode may be switched off in `text` at `end`: a list of flags ends
/// there that holds a `u` behind a `-`, and that stands right behind a `(`, or
/// further behind one where white space may be ignored.
pub open spec fn is_unicode_off(text: Seq<char>, end: int) -> bool {
    exists|start: int, i: int, j: int|
        #[trigger] is_flag_list(text, start, end) && start < i < j < end && #[trigger] text[i] == '-'
            && #[trigger] text[j] == 'u' && ((0 < start && text[start - 1] == '(') || is_verbose(
            text,
        ))
}

/// How many `\` there are at the end of `text`.
pub open spec fn last_backslashes(text: Seq<char>) -> nat
    decreases text.len(),
{
    if text.len() == 0 || text.last() != '\\' {
        0
    } else {
        last_backslashes(text.drop_last()) + 1
    }
}

/// Whether `text` goes on with `word` at `start`.
pub open spec fn goes_on_with(text: Seq<char>, start: int, word: Seq<char>) -> bool {
    start + word.len() <= text.len() && text.subrange(start, start + word.len()) == word
}

/// Whether the `\` at `start` of `text` may be the start of an assertion that
/// asks for no character of a word beside it: `\B`, `\b{start-half}` or
/// `\b{end-half}`.
pub open spec fn is_half_assertion(text: Seq<char>, start: int) -> bool {
    &&& 0 <= start && start + 1 < text.len()
    &&& text[start] == '\\' && last_backslashes(text.take(start)) % 2 == 0
    &&& text[start + 1] == 'B' || {
        &&& goes_on_with(text, start + 1, seq!['b', '{'])
        &&& !goes_on_with(text, start + 3, seq!['s', 't', 'a', 'r', 't', '}'])
        &&& !goes_on_with(text, start + 3, seq!['e', 'n', 'd', '}'])
    }
}

/// Whether the expression `text` matches nothing inside a character: with
/// Unicode off, only the half assertions hold between the bytes of one.
pub open spec fn keeps_characters(text: Seq<char>) -> bool {
    forall|end: int, start: int|
        #[trigger] is_unicode_off(text, end) && end < start ==> !(#[trigger] is_half_assertion(
            text,
            start,
        ))
}

/// Whether each character of `text` is a single byte.
pub open spec fn is_ascii(text: Seq<char>) -> bool {
    forall|i: int| 0 <= i < text.len() ==> (#[trigger] text[i]) as u32 <= 0x7f
}

/// Whether `text` switches flags from `start` to `end`: `(?i)`, `(?s-x)` and
/// the like.
pub open spec fn is_directive(text: Seq<char>, start: int, end: int) -> bool {
    0 <= start && is_flag_list(text, start + 1, end) && text[start] == '(' && text[end] == ')'
}

/// How many more `(` than `)` there are in `text`.
pub open spec fn open_groups(text: Seq<char>) -> int
    decreases text.len(),
{
    if text.len() == 0 {
        0
    } else {
        open_groups(text.drop_last()) + if text.last() == '(' {
            1int
        } else if text.last() == ')' {
            -1int
        } else {
            0int
        }
    }
}

/// Whether the `(` at `start` of the expression `text` stands in a group, or for
/// itself: some expression is the same up to there and goes on with a `)`, or
/// what comes before has no class, escape or comment, so that every parenthesis
/// in it is one of a group, and a group is open.
pub open spec fn is_enclosed(text: Seq<char>, start: int) -> bool {
    let before = text.take(start);
    ||| exists|rest: Seq<char>| #[trigger] regex_accepts(before.push(')') + rest)
    ||| {
        &&& !before.contains('[') && !before.contains('\\') && !before.contains('#')
        &&& open_groups(before) > 0
    }
}

/// Whether the expression `text` switches no flags that would reach past its own
/// end: it switches none at all, or only in groups.
pub open spec fn sets_no_flags(text: Seq<char>) -> bool {
    forall|start: int, end: int| #[trigger]
        is_directive(text, start, end) ==> is_enclosed(text, start)
}

/// Whether the expressions `parts` keep apart on `input` when they are written
/// with a `|` between them: none but the last switches flags that reach the ones
/// behind it, and all of them keep the characters of `input` whole.
pub open spec fn keep_apart(parts: Seq<Seq<char>>, input: Seq<char>) -> bool {
    parts.len() > 1 ==> {
        &&& forall|i: int| 0 <= i < parts.len() - 1 ==> sets_no_flags(#[trigger] parts[i])
        &&& is_ascii(input) || forall|i: int|
            0 <= i < parts.len() ==> keeps_characters(#[trigger] parts[i])
    }
}

/// Whether `text` is one alternation of the expressions `parts`.
pub open spec fn is_alternation(parts: Seq<Seq<char>>, text: Seq<char>) -> bool {
    &&& parts.len() > 0
    &&& alternation(parts) == text
    &&& forall|i: int| 0 <= i < parts.len() ==> regex_accepts(#[trigger] parts[i])
}

/// Calls `Regex::new`. Whether it takes the text, and what the expression then
/// matches, depend on the text alone. Where expressions are written with a `|`
/// between them, and keep apart, the whole matches where one of them does: `|`
/// binds weakest, flags that are switched in a group end with it, and each
/// expression is read as it would be on its own. Nothing is said of several of
/// which one, with Unicode off, can match the empty text between the bytes of a
/// character: the whole then misses what another one matches further on.
#[verifier::external_body]
fn regex_new(text: &str) -> (result: Result<Regex, regex::Error>)
    ensures
        result is Ok == regex_accepts(text@),
        result matches Ok(regex) ==> regex_source(regex) == Some(text@),
        result is Ok ==> forall|parts: Seq<Seq<char>>, input: Seq<char>|
            is_alternation(parts, text@) && keep_apart(parts, input) ==> regex_match(text@, input)
                == #[trigger] any_match(parts, input),
{
    Regex::new(text)
}

/// Calls `Regex::is_match`, on an expression out of `Regex::new`.
#[verifier::external_body]
fn regex_is_match(regex: &Regex, input: &str) -> (found: bool)
    requires
        regex_source(*regex) is Some,
    ensures
        found == regex_match(regex_source(*regex)->0, input@),
{
    regex.is_match(input)
}

/// Calls `Regex::as_str`, on an expression out of `Regex::new`: the text is
/// the one that the expression was made from.
#[verifier::external_body]
fn regex_as_str(regex: &Regex) -> (text: &str)
    requires
        regex_source(*regex) is Some,
    ensures
        Some(text@) == regex_source(*regex),
{
    regex.as_str()
}

/// Why an ignored entry that was marked as a pattern is none.
#[derive(Debug)]
pub enum PatternError {
    /// The text is no regular expression.
    Invalid(String),
    /// The attempt to compile the text was lost.
    Miscompilation(String),
}

/// What a `PatternError` holds.
pub enum PatternErrorView {
    Invalid(Seq<char>),
    Miscompilation(Seq<char>),
}

impl View for PatternError {
    type V = PatternErrorView;

    open spec fn view(&self) -> PatternErrorView {
        match self {
            PatternError::Invalid(text) => PatternErrorView::Invalid(text@),
            PatternError::Miscompilation(text) => PatternErrorView::Miscompilation(text@),
        }
    }
}

impl PatternError {
    /// The text that was to be compiled.
    pub open spec fn spelled(error: PatternErrorView) -> Seq<char> {
        match error {
            PatternErrorView::Invalid(text) => text,
            PatternErrorView::Miscompilation(text) => text,
        }
    }

    /// The error in words.
    pub open spec fn words(error: PatternErrorView) -> Seq<char> {
        match error {
            PatternErrorView::Invalid(text) => "the pattern ("@ + text + ") is invalid"@,
            PatternErrorView::Miscompilation(text) => "the pattern ("@ + text
                + ") could not compile"@,
        }
    }

    /// The error in words.
    pub fn message(&self) -> (text: String)
        ensures
            text@ == PatternError::words(self@),
    {
        let mut message: String = "the pattern (".to_owned();
        match self {
            PatternError::Invalid(text) => {
                message.append(text);
                message.append(") is invalid");
            },
            PatternError::Miscompilation(text) => {
                message.append(text);
                message.append(") could not compile");
            },
        }
        message
    }
}

/// A regular expression on names of directories.
#[derive(Debug)]
pub struct Pattern {
    regex: Regex,
}

impl View for Pattern {
    type V = Seq<char>;

    /// The text of the expression.
    closed spec fn view(&self) -> Seq<char> {
        regex_source(self.regex)->0
    }
}

impl Pattern {
    #[verifier::type_invariant]
    spec fn well_formed(self) -> bool {
        regex_source(self.regex) is Some && regex_accepts(regex_source(self.regex)->0)
    }

    /// The expression that `text` spells.
    pub fn new(text: &str) -> (result: Result<Pattern, PatternError>)
        ensures
            match result {
                Ok(pattern) => regex_accepts(text@) && pattern@ == text@,
                Err(error) => !regex_accepts(text@) && error@ == PatternErrorView::Invalid(text@),
            },
            result is Ok ==> forall|parts: Seq<Seq<char>>, input: Seq<char>|
                is_alternation(parts, text@) && keep_apart(parts, input) ==> regex_match(
                    text@,
                    input,
                ) == #[trigger] any_match(parts, input),
    {
        match regex_new(text) {
            Ok(regex) => Ok(Pattern { regex }),
            Err(_) => Err(PatternError::Invalid(text.to_owned())),
        }
    }

    /// Whether the expression matches somewhere in `name`.
    pub fn is_match(&self, name: &str) -> (found: bool)
        ensures
            found == regex_match(self@, name@),
    {
        proof {
            use_type_invariant(self);
        }
        regex_is_match(&self.regex, name)
    }

    /// The text of the expression.
    pub fn as_str(&self) -> (text: &str)
        ensures
            text@ == self@,
            regex_accepts(self@),
    {
        proof {
            use_type_invariant(self);
        }
        regex_as_str(&self.regex)
    }
}

/// One entry of the list of what to pass over.
#[derive(Debug)]
pub enum IgnoredEntry {
    /// A directory, by its canonical path.
    Exact(EntryPath),
    /// Every directory with a name that the pattern matches.
    Pattern(Pattern),
}

/// What an `IgnoredEntry` holds.
pub enum IgnoredEntryView {
    Exact(Seq<u8>),
    Pattern(Seq<char>),
}

impl View for IgnoredEntry {
    type V = IgnoredEntryView;

    open spec fn view(&self) -> IgnoredEntryView {
        match self {
            IgnoredEntry::Exact(path) => IgnoredEntryView::Exact(path@),
            IgnoredEntry::Pattern(pattern) => IgnoredEntryView::Pattern(pattern@),
        }
    }
}

/// What came of compiling a pattern apart from the caller.
#[derive(Debug)]
pub enum Compilation {
    Compiled(Pattern),
    Rejected,
    /// No answer came back.
    Lost,
}

/// The text of the pattern that an ignored entry spells, where it spells one.
pub open spec fn pattern_text(entry: Seq<u8>) -> Option<Seq<char>> {
    if entry.len() > 0 && entry[0] == PATTERN_MARK {
        Some(crate::text::utf8_lossy(entry.drop_first()))
    } else {
        None
    }
}

impl IgnoredEntry {
    /// The text of the pattern that `entry` spells; `None` where it is a path.
    pub fn pattern_text(entry: &[u8]) -> (text: Option<String>)
        ensures
            text is Some == pattern_text(entry@) is Some,
            text matches Some(spelled) ==> Some(spelled@) == pattern_text(entry@),
            text matches Some(spelled) ==> (vstd::utf8::valid_utf8(entry@.drop_first())
                ==> spelled@ == vstd::utf8::decode_utf8(entry@.drop_first())),
    {
        if entry.len() == 0 || entry[0] != PATTERN_MARK {
            return None;
        }
        let rest: &[u8] = slice_subrange(entry, 1, entry.len());
        assert(rest@ == entry@.drop_first());
        Some(from_utf8_lossy(rest))
    }

    /// The pattern with the text `text`, once it is known what came of
    /// compiling it.
    pub fn from_compilation(text: String, outcome: Compilation) -> (result: Result<
        IgnoredEntry,
        PatternError,
    >)
        ensures
            match outcome {
                Compilation::Compiled(pattern) => result matches Ok(entry) && entry@
                    == IgnoredEntryView::Pattern(pattern@),
                Compilation::Rejected => result matches Err(error) && error@
                    == PatternErrorView::Invalid(text@),
                Compilation::Lost => result matches Err(error) && error@
                    == PatternErrorView::Miscompilation(text@),
            },
    {
        match outcome {
            Compilation::Compiled(pattern) => Ok(IgnoredEntry::Pattern(pattern)),
            Compilation::Rejected => Err(PatternError::Invalid(text)),
            Compilation::Lost => Err(PatternError::Miscompilation(text)),
        }
    }

    /// The pattern that `entry` spells; `None` where it is a path.
    pub fn pattern(entry: &[u8]) -> (result: Option<Result<IgnoredEntry, PatternError>>)
        ensures
            result is Some == pattern_text(entry@) is Some,
            pattern_text(entry@) matches Some(text) ==> match result->0 {
                Ok(ignored) => regex_accepts(text) && ignored@ == IgnoredEntryView::Pattern(text),
                Err(error) => !regex_accepts(text) && error@ == PatternErrorView::Invalid(text),
            },
    {
        let text: String = match IgnoredEntry::pattern_text(entry) {
            Some(text) => text,
            None => {
                return None;
            },
        };
        let outcome: Compilation = match Pattern::new(&text) {
            Ok(pattern) => Compilation::Compiled(pattern),
            Err(_) => Compilation::Rejected,
        };
        Some(IgnoredEntry::from_compilation(text, outcome))
    }
}

/// The patterns among the ignored entries: as they came in, or as the one
/// expression that stands for all of them.
#[derive(Debug)]
pub enum IgnoredPattern {
    Compiled(Pattern),
    Raw(Vec<Pattern>),
}

/// What an `IgnoredPattern` holds: the texts of the expressions.
#[verifier::ext_equal]
pub enum IgnoredPatternView {
    Compiled(Seq<char>),
    Raw(Seq<Seq<char>>),
}

/// The texts of a list of patterns.
pub open spec fn pattern_views(patterns: Seq<Pattern>) -> Seq<Seq<char>> {
    Seq::new(patterns.len(), |i: int| patterns[i]@)
}

/// The texts that are not empty, in order.
pub open spec fn non_empty(texts: Seq<Seq<char>>) -> Seq<Seq<char>> {
    texts.filter(|text: Seq<char>| text.len() > 0)
}

impl View for IgnoredPattern {
    type V = IgnoredPatternView;

    open spec fn view(&self) -> IgnoredPatternView {
        match self {
            IgnoredPattern::Compiled(pattern) => IgnoredPatternView::Compiled(pattern@),
            IgnoredPattern::Raw(patterns) => IgnoredPatternView::Raw(pattern_views(patterns@)),
        }
    }
}

impl IgnoredPatternView {
    /// Whether a directory named `name` is passed over. The one expression
    /// with the empty text stands for no pattern at all.
    pub open spec fn ignores(self, name: Seq<char>) -> bool {
        match self {
            IgnoredPatternView::Compiled(text) => text.len() > 0 && regex_match(text, name),
            IgnoredPatternView::Raw(texts) => any_match(texts, name),
        }
    }

    /// With one more pattern.
    pub open spec fn pushed(self, text: Seq<char>) -> IgnoredPatternView {
        match self {
            IgnoredPatternView::Compiled(base) => IgnoredPatternView::Raw(seq![base, text]),
            IgnoredPatternView::Raw(texts) => IgnoredPatternView::Raw(texts.push(text)),
        }
    }

    /// The text of the one expression for all the patterns.
    pub open spec fn whole(self) -> Seq<char> {
        match self {
            IgnoredPatternView::Compiled(text) => text,
            IgnoredPatternView::Raw(texts) => alternation(non_empty(texts)),
        }
    }

    /// As one expression, where that can be had.
    pub open spec fn compiled(self) -> IgnoredPatternView {
        match self {
            IgnoredPatternView::Compiled(text) => self,
            IgnoredPatternView::Raw(texts) => if regex_accepts(self.whole()) {
                IgnoredPatternView::Compiled(self.whole())
            } else {
                self
            },
        }
    }

    /// Whether no pattern that is still on its own is empty, and they keep apart
    /// on `name`.
    pub open spec fn is_separable(self, name: Seq<char>) -> bool {
        self matches IgnoredPatternView::Raw(texts) ==> keep_apart(texts, name) && forall|i: int|
            0 <= i < texts.len() ==> (#[trigger] texts[i]).len() > 0
    }
}

/// The texts of `patterns` that are not empty, with a `|` between them.
fn join(patterns: &Vec<Pattern>) -> (text: String)
    ensures
        text@ == alternation(non_empty(pattern_views(patterns@))),
        forall|i: int|
            0 <= i < patterns.len() ==> regex_accepts(#[trigger] pattern_views(patterns@)[i]),
{
    let ghost texts = pattern_views(patterns@);
    let mut whole: String = String::new();
    let mut started: bool = false;
    let mut i: usize = 0;
    proof {
        reveal(Seq::filter);
        assert(texts.take(0) == Seq::<Seq<char>>::empty());
    }
    while i < patterns.len()
        invariant
            i <= patterns.len(),
            texts == pattern_views(patterns@),
            whole@ == alternation(non_empty(texts.take(i as int))),
            started == (non_empty(texts.take(i as int)).len() > 0),
            forall|j: int| 0 <= j < i ==> regex_accepts(#[trigger] texts[j]),
        decreases patterns.len() - i,
    {
        let text: &str = patterns[i].as_str();
        let ghost before = non_empty(texts.take(i as int));
        let ghost after = non_empty(texts.take(i + 1));
        proof {
            reveal(Seq::filter);
            assert(texts.take(i + 1).drop_last() == texts.take(i as int));
            assert(texts.take(i + 1).last() == text@);
        }
        if !text.is_empty() {
            assert(after == before.push(text@));
            assert(after.drop_last() == before);
            if started {
                whole.append("|");
                proof {
                    reveal_strlit("|");
                    assert("|"@ == seq!['|']);
                    assert(alternation(before) + "|"@ == alternation(before).push('|'));
                }
            }
            whole.append(text);
            assert(whole@ == alternation(after));
            started = true;
        }
        i = i + 1;
    }
    assert(texts.take(i as int) == texts);
    whole
}

/// Where no text is empty, none is left out.
proof fn non_empty_keeps(texts: Seq<Seq<char>>)
    requires
        forall|i: int| 0 <= i < texts.len() ==> (#[trigger] texts[i]).len() > 0,
    ensures
        non_empty(texts) == texts,
    decreases texts.len(),
{
    reveal(Seq::filter);
    if texts.len() > 0 {
        non_empty_keeps(texts.drop_last());
        assert(texts.drop_last().push(texts.last()) == texts);
    }
}

impl IgnoredPattern {
    /// Whether a directory named `name` is passed over.
    pub fn is_match(&self, name: &str) -> (found: bool)
        ensures
            found == self@.ignores(name@),
    {
        match self {
            IgnoredPattern::Compiled(pattern) => !pattern.as_str().is_empty() && pattern.is_match(
                name,
            ),
            IgnoredPattern::Raw(patterns) => {
                let ghost texts = pattern_views(patterns@);
                let mut i: usize = 0;
                while i < patterns.len()
                    invariant
                        i <= patterns.len(),
                        texts == pattern_views(patterns@),
                        self@ == IgnoredPatternView::Raw(texts),
                        forall|j: int| 0 <= j < i ==> !regex_match(#[trigger] texts[j], name@),
                    decreases patterns.len() - i,
                {
                    assert(texts[i as int] == patterns@[i as int]@);
                    if patterns[i].is_match(name) {
                        return true;
                    }
                    i = i + 1;
                }
                false
            },
        }
    }

    /// Takes one more pattern in.
    pub fn push(&mut self, pattern: Pattern)
        ensures
            final(self)@ == old(self)@.pushed(pattern@),
    {
        let ghost text = pattern@;
        let mut taken: IgnoredPattern = IgnoredPattern::Raw(Vec::new());
        std::mem::swap(self, &mut taken);
        match taken {
            IgnoredPattern::Compiled(base) => {
                let ghost base_text = base@;
                let mut patterns: Vec<Pattern> = Vec::new();
                patterns.push(base);
                patterns.push(pattern);
                assert(pattern_views(patterns@) == seq![base_text, text]);
                *self = IgnoredPattern::Raw(patterns);
            },
            IgnoredPattern::Raw(base) => {
                let mut patterns: Vec<Pattern> = base;
                let ghost texts = pattern_views(patterns@);
                patterns.push(pattern);
                assert(pattern_views(patterns@) == texts.push(text));
                *self = IgnoredPattern::Raw(patterns);
            },
        }
    }

    /// With the one expression `outcome` in place of the patterns, where there
    /// is one.
    pub fn replaced(self, outcome: Result<Pattern, PatternError>) -> (result: IgnoredPattern)
        ensures
            match outcome {
                Ok(pattern) => result@ == IgnoredPatternView::Compiled(pattern@),
                Err(_) => result@ == self@,
            },
    {
        match outcome {
            Ok(pattern) => IgnoredPattern::Compiled(pattern),
            Err(_) => self,
        }
    }

    /// As one expression, where that can be had. What is passed over stays the
    /// same, unless a pattern is empty, switches flags that reach the ones behind
    /// it, or, among others, can match inside a character of the name.
    pub fn compiled(self) -> (result: IgnoredPattern)
        ensures
            result@ == self@.compiled(),
            forall|name: Seq<char>|
                self@.is_separable(name) || result@ is Raw ==> #[trigger] result@.ignores(name)
                    == self@.ignores(name),
    {
        let outcome: Result<Pattern, PatternError> = match &self {
            IgnoredPattern::Compiled(_) => {
                return self;
            },
            IgnoredPattern::Raw(patterns) => {
                let text: String = join(patterns);
                Pattern::new(&text)
            },
        };
        let ghost before = self@;
        let result: IgnoredPattern = self.replaced(outcome);
        proof {
            let texts = before->Raw_0;
            assert forall|name: Seq<char>|
                before.is_separable(name) && regex_accepts(before.whole()) implies #[trigger] result@.ignores(
                name,
            ) == before.ignores(name) by {
                non_empty_keeps(texts);
                if texts.len() > 0 {
                    assert(is_alternation(texts, before.whole()));
                    assert(regex_match(before.whole(), name) == any_match(texts, name));
                    assert(before.whole().len() > 0) by {
                        assert(texts[texts.len() - 1].len() > 0);
                    }
                }
            }
        }
        result
    }
}

impl Default for IgnoredPattern {
    fn default() -> (empty: Self)
        ensures
            empty@ == IgnoredPatternView::Raw(Seq::empty()),
    {
        let patterns: Vec<Pattern> = Vec::new();
        assert(pattern_views(patterns@) == Seq::<Seq<char>>::empty());
        IgnoredPattern::Raw(patterns)
    }
}

/// No pattern, no directory passed over: before they are compiled, and after.
pub proof fn no_pattern_ignores_nothing(name: Seq<char>)
    ensures
        !IgnoredPatternView::Raw(Seq::empty()).ignores(name),
        !IgnoredPatternView::Raw(Seq::empty()).compiled().ignores(name),
{
    reveal(Seq::filter);
}

/// One more pattern passes over what it matches, and nothing else that was not
/// passed over before.
pub proof fn pushed_ignores_more(patterns: IgnoredPatternView, text: Seq<char>, name: Seq<char>)
    requires
        patterns matches IgnoredPatternView::Compiled(base) ==> base.len() > 0,
    ensures
        patterns.pushed(text).ignores(name) == (patterns.ignores(name) || regex_match(text, name)),
{
    match patterns {
        IgnoredPatternView::Compiled(base) => {
            let both = seq![base, text];
            assert(both[0] == base && both[1] == text);
        },
        IgnoredPatternView::Raw(texts) => {
            let more = texts.push(text);
            assert(more[texts.len() as int] == text);
            if any_match(texts, name) {
                let i = choose|i: int| 0 <= i < texts.len() && regex_match(#[trigger] texts[i], name);
                assert(more[i] == texts[i]);
            }
            if any_match(more, name) && !regex_match(text, name) {
                let i = choose|i: int| 0 <= i < more.len() && regex_match(#[trigger] more[i], name);
                assert(more[i] == texts[i]);
            }
        },
    }
}

/// Compiling twice is compiling once.
pub proof fn compiled_is_stable(patterns: IgnoredPatternView)
    ensures
        patterns.compiled().compiled() == patterns.compiled(),
{
}

/// A value spells a pattern exactly where it starts with a `#`, and the pattern is
/// all that comes behind it.
pub proof fn marked_values_are_patterns(first: u8, rest: Seq<u8>)
    ensures
        pattern_text(seq![first] + rest) == if first == 0x23 {
            Some(crate::text::utf8_lossy(rest))
        } else {
            None
        },
        pattern_text(Seq::empty()) is None,
{
    assert((seq![first] + rest).drop_first() == rest);
}

/// One pattern passes over the names that it matches, on its own and compiled; but
/// for the empty one, which passes over nothing once compiled.
pub proof fn one_pattern_ignores_what_it_matches(text: Seq<char>, name: Seq<char>)
    ensures
        IgnoredPatternView::Raw(seq![text]).ignores(name) == regex_match(text, name),
        text.len() > 0 ==> IgnoredPatternView::Compiled(text).ignores(name) == regex_match(
            text,
            name,
        ),
        !IgnoredPatternView::Compiled(Seq::empty()).ignores(name),
        regex_accepts(text) ==> IgnoredPatternView::Raw(seq![text]).compiled()
            == IgnoredPatternView::Compiled(text),
{
    let texts = seq![text];
    assert(texts[0] == text);
    if any_match(texts, name) {
        let i = choose|i: int| 0 <= i < texts.len() && regex_match(#[trigger] texts[i], name);
        assert(texts[i] == text);
    }
    whole_grows(Seq::empty(), text);
    assert(Seq::<Seq<char>>::empty().push(text) == texts);
    if text.len() == 0 {
        assert(text == Seq::<char>::empty());
    }
}

/// A list of patterns passes over a name exactly where one of them matches it.
pub proof fn some_pattern_ignores(texts: Seq<Seq<char>>, name: Seq<char>)
    ensures
        IgnoredPatternView::Raw(texts).ignores(name) == exists|i: int|
            0 <= i < texts.len() && regex_match(#[trigger] texts[i], name),
{
}

/// The one expression for a list of patterns grows with each further one: by
/// nothing where that is empty, by that one where there is nothing yet, and else
/// by a `|` and that one. For no pattern it is empty.
pub proof fn whole_grows(texts: Seq<Seq<char>>, text: Seq<char>)
    ensures
        IgnoredPatternView::Raw(Seq::empty()).whole() == Seq::<char>::empty(),
        IgnoredPatternView::Raw(texts.push(text)).whole() == if text.len() == 0 {
            IgnoredPatternView::Raw(texts).whole()
        } else if forall|i: int| 0 <= i < texts.len() ==> (#[trigger] texts[i]).len() == 0 {
            text
        } else {
            IgnoredPatternView::Raw(texts).whole() + seq!['|'] + text
        },
{
    reveal(Seq::filter);
    assert(texts.push(text).drop_last() == texts);
    some_are_not_empty(texts);
    let kept = non_empty(texts);
    assert(kept.push(text).drop_last() == kept);
    assert(alternation(kept).push('|') == alternation(kept) + seq!['|']);
}

/// Nothing is left of a list of texts exactly where all of them are empty.
proof fn some_are_not_empty(texts: Seq<Seq<char>>)
    ensures
        non_empty(texts).len() == 0 <==> forall|i: int|
            0 <= i < texts.len() ==> (#[trigger] texts[i]).len() == 0,
    decreases texts.len(),
{
    reveal(Seq::filter);
    if texts.len() > 0 {
        let shorter = texts.drop_last();
        some_are_not_empty(shorter);
        if forall|i: int| 0 <= i < texts.len() ==> (#[trigger] texts[i]).len() == 0 {
            assert forall|i: int| 0 <= i < shorter.len() implies (#[trigger] shorter[i]).len()
                == 0 by {
                assert(shorter[i] == texts[i]);
            }
            assert(texts[texts.len() - 1].len() == 0);
        }
        if non_empty(texts).len() == 0 {
            assert forall|i: int| 0 <= i < texts.len() implies (#[trigger] texts[i]).len() == 0 by {
                if i < shorter.len() {
                    assert(texts[i] == shorter[i]);
                }
            }
        }
    }
}

/// Compiling makes the patterns into the one expression for all of them where that
/// is one, and leaves them as they are where it is none or they are one already.
/// Taking a pattern in keeps all that were there, in order.
pub proof fn compiled_or_kept(texts: Seq<Seq<char>>, text: Seq<char>)
    ensures
        IgnoredPatternView::Raw(texts).compiled() == if regex_accepts(
            IgnoredPatternView::Raw(texts).whole(),
        ) {
            IgnoredPatternView::Compiled(IgnoredPatternView::Raw(texts).whole())
        } else {
            IgnoredPatternView::Raw(texts)
        },
        IgnoredPatternView::Compiled(text).compiled() == IgnoredPatternView::Compiled(text),
        IgnoredPatternView::Raw(texts).pushed(text) == IgnoredPatternView::Raw(texts.push(text)),
{
}

/// The words of an error hold the text that was to be compiled, between the same
/// words for every text.
pub proof fn pattern_errors_name_the_text(text: Seq<char>)
    ensures
        PatternError::words(PatternErrorView::Invalid(text)) == "the pattern ("@ + text
            + ") is invalid"@,
        PatternError::words(PatternErrorView::Miscompilation(text)) == "the pattern ("@ + text
            + ") could not compile"@,
{
}

} // verus!
