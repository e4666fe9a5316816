//! The highlighter: its events, the names of its highlights, the
//! per-language configurations, and the state that a worker keeps between
//! files.
//!
//! The highlighter itself and the renderer of markup are those of the
//! `tree-sitter-highlight` crate. This module hands them plain values and
//! takes plain values back; what is believed of them is said at each
//! trusted function.

use vstd::prelude::*;
use vstd::slice::slice_subrange;
use vstd::utf8::{decode_utf8, encode_utf8, encode_utf8_decode_utf8, valid_utf8};
use std::sync::atomic::AtomicUsize;
use crate::envelope::text::text_of;
use crate::errors::{HighlightError, NonFatalError};
use crate::languages::{from_name, spec_from_name, Language};

verus! {

#[verifier::external_type_specification]
#[verifier::external_body]
pub struct ExHighlighter(tree_sitter_highlight::Highlighter);

#[verifier::external_type_specification]
#[verifier::external_body]
pub struct ExHtmlRenderer(tree_sitter_highlight::HtmlRenderer);

#[verifier::external_type_specification]
#[verifier::external_body]
pub struct ExHighlightConfiguration(tree_sitter_highlight::HighlightConfiguration);

#[verifier::external_type_specification]
#[verifier::external_body]
pub struct ExHighlightFailure(tree_sitter_highlight::Error);

/// The number of highlight names.
pub const HIGHLIGHT_NAME_COUNT: usize = 26;

/// The highlight names. The place of a name in this list is the number
/// under which the highlighter reports it, and under which a spans
/// response refers to it.
pub open spec fn highlight_names() -> Seq<Seq<char>> {
    seq![
        "attribute"@,
        "comment"@,
        "constant"@,
        "constant.builtin"@,
        "constructor"@,
        "embedded"@,
        "function"@,
        "function.builtin"@,
        "keyword"@,
        "module"@,
        "number"@,
        "operator"@,
        "property"@,
        "property.builtin"@,
        "punctuation"@,
        "punctuation.bracket"@,
        "punctuation.delimiter"@,
        "punctuation.special"@,
        "string"@,
        "string.special"@,
        "tag"@,
        "type"@,
        "type.builtin"@,
        "variable"@,
        "variable.builtin"@,
        "variable.parameter"@,
    ]
}

/// No highlight name has more than 21 characters.
pub proof fn lemma_highlight_names_are_short()
    ensures
        highlight_names().len() == HIGHLIGHT_NAME_COUNT,
        forall|i: int| 0 <= i < highlight_names().len() ==> (#[trigger] highlight_names()[i]).len()
            <= 21,
{
    reveal_strlit("attribute");
    reveal_strlit("comment");
    reveal_strlit("constant");
    reveal_strlit("constant.builtin");
    reveal_strlit("constructor");
    reveal_strlit("embedded");
    reveal_strlit("function");
    reveal_strlit("function.builtin");
    reveal_strlit("keyword");
    reveal_strlit("module");
    reveal_strlit("number");
    reveal_strlit("operator");
    reveal_strlit("property");
    reveal_strlit("property.builtin");
    reveal_strlit("punctuation");
    reveal_strlit("punctuation.bracket");
    reveal_strlit("punctuation.delimiter");
    reveal_strlit("punctuation.special");
    reveal_strlit("string");
    reveal_strlit("string.special");
    reveal_strlit("tag");
    reveal_strlit("type");
    reveal_strlit("type.builtin");
    reveal_strlit("variable");
    reveal_strlit("variable.builtin");
    reveal_strlit("variable.parameter");
}

/// The highlight name of a number.
pub fn highlight_name(index: usize) -> (name: &'static str)
    requires
        index < HIGHLIGHT_NAME_COUNT,
    ensures
        name@ == highlight_names()[index as int],
{
    if index == 0 {
        "attribute"
    } else if index == 1 {
        "comment"
    } else if index == 2 {
        "constant"
    } else if index == 3 {
        "constant.builtin"
    } else if index == 4 {
        "constructor"
    } else if index == 5 {
        "embedded"
    } else if index == 6 {
        "function"
    } else if index == 7 {
        "function.builtin"
    } else if index == 8 {
        "keyword"
    } else if index == 9 {
        "module"
    } else if index == 10 {
        "number"
    } else if index == 11 {
        "operator"
    } else if index == 12 {
        "property"
    } else if index == 13 {
        "property.builtin"
    } else if index == 14 {
        "punctuation"
    } else if index == 15 {
        "punctuation.bracket"
    } else if index == 16 {
        "punctuation.delimiter"
    } else if index == 17 {
        "punctuation.special"
    } else if index == 18 {
        "string"
    } else if index == 19 {
        "string.special"
    } else if index == 20 {
        "tag"
    } else if index == 21 {
        "type"
    } else if index == 22 {
        "type.builtin"
    } else if index == 23 {
        "variable"
    } else if index == 24 {
        "variable.builtin"
    } else {
        "variable.parameter"
    }
}

/// The views of a sequence of strings, one for one.
pub open spec fn name_views(names: Seq<String>) -> Seq<Seq<char>> {
    Seq::new(names.len(), |i: int| names[i]@)
}

/// All highlight names, by their numbers.
pub fn all_highlight_names() -> (names: Vec<String>)
    ensures
        name_views(names@) == highlight_names(),
{
    let mut names: Vec<String> = Vec::new();
    let mut i: usize = 0;
    while i < HIGHLIGHT_NAME_COUNT
        invariant
            i <= HIGHLIGHT_NAME_COUNT,
            names.len() == i,
            forall|k: int| 0 <= k < i ==> (#[trigger] names@[k])@ == highlight_names()[k],
        decreases HIGHLIGHT_NAME_COUNT - i,
    {
        names.push(highlight_name(i).to_owned());
        i += 1;
    }
    assert(name_views(names@) =~= highlight_names());
    names
}

/// The attribute that marks markup with the highlight name of a number:
/// `class="`, the name, and `"`.
pub open spec fn class_attribute(index: int) -> Seq<u8> {
    encode_utf8("class=\""@) + encode_utf8(highlight_names()[index]) + encode_utf8("\""@)
}

/// Appends the attribute of a highlight to markup.
pub fn write_class_attribute(index: usize, output: &mut Vec<u8>)
    requires
        index < HIGHLIGHT_NAME_COUNT,
    ensures
        final(output)@ == old(output)@ + class_attribute(index as int),
{
    output.extend_from_slice("class=\"".as_bytes());
    output.extend_from_slice(highlight_name(index).as_bytes());
    output.extend_from_slice("\"".as_bytes());
    assert(output@ =~= old(output)@ + class_attribute(index as int));
}

/// One step in the highlighting of a file, as the highlighter reports it.
#[derive(Clone, Copy, Debug, PartialEq, Eq, Structural)]
pub enum HighlightEvent {
    /// The bytes from `start` up to `end` come next.
    Source { start: usize, end: usize },
    /// From here on the source bears the highlight name of this number.
    HighlightStart(usize),
    /// The highlight that was started last ends here.
    HighlightEnd,
}

/// Whether an event fits a file of `len` bytes: source is a non-empty run
/// inside the file, and a highlight bears the number of a highlight name.
pub open spec fn event_fits(event: HighlightEvent, len: int) -> bool {
    match event {
        HighlightEvent::Source { start, end } => start < end <= len,
        HighlightEvent::HighlightStart(index) => index < HIGHLIGHT_NAME_COUNT,
        HighlightEvent::HighlightEnd => true,
    }
}

/// Whether every event of a sequence fits a file of `len` bytes.
pub open spec fn events_fit(events: Seq<HighlightEvent>, len: int) -> bool {
    forall|i: int| 0 <= i < events.len() ==> event_fits(#[trigger] events[i], len)
}

/// Whether every event fits a file of `len` bytes.
pub fn check_events(events: &Vec<HighlightEvent>, len: usize) -> (fit: bool)
    ensures
        fit == events_fit(events@, len as int),
{
    let mut i: usize = 0;
    while i < events.len()
        invariant
            i <= events.len(),
            forall|k: int| 0 <= k < i ==> event_fits(#[trigger] events@[k], len as int),
        decreases events.len() - i,
    {
        let fits = match events[i] {
            HighlightEvent::Source { start, end } => start < end && end <= len,
            HighlightEvent::HighlightStart(index) => index < HIGHLIGHT_NAME_COUNT,
            HighlightEvent::HighlightEnd => true,
        };
        if !fits {
            assert(!event_fits(events@[i as int], len as int));
            return false;
        }
        i += 1;
    }
    true
}

/// What the highlighter needs to know of one language.
pub struct Config {
    /// The language as envelopes name it.
    pub fb_language: Language,
    /// The compiled grammar and queries.
    pub ts_config: tree_sitter_highlight::HighlightConfiguration,
}

/// The number that every highlight that a configuration hands out lies
/// below: one more than the greatest of them, or 0 where it hands out
/// none.
pub uninterp spec fn highlight_limit(
    configuration: tree_sitter_highlight::HighlightConfiguration,
) -> nat;

/// Calls `HighlightConfiguration::configure` with the names that the
/// highlighter is to recognise. From then on the configuration hands out
/// a highlight only by the place of one of these names in the list.
#[verifier::external_body]
fn configure(
    configuration: &mut tree_sitter_highlight::HighlightConfiguration,
    names: &Vec<String>,
)
    ensures
        highlight_limit(*final(configuration)) <= names@.len(),
{
    configuration.configure(names.as_slice());
}

impl Config {
    /// Prepares a language for the highlighter: makes the compiled
    /// grammar and queries recognise the highlight names, so that every
    /// highlight that the configuration hands out is the number of one of
    /// them.
    pub fn new(
        fb_language: Language,
        ts_config: tree_sitter_highlight::HighlightConfiguration,
    ) -> (config: Config)
        ensures
            config.fb_language == fb_language,
            highlight_limit(config.ts_config) <= HIGHLIGHT_NAME_COUNT,
    {
        let mut ts_config = ts_config;
        let names = all_highlight_names();
        assert(names@.len() == name_views(names@).len());
        assert(highlight_names().len() == HIGHLIGHT_NAME_COUNT);
        configure(&mut ts_config, &names);
        Config { fb_language, ts_config }
    }
}

/// The languages that a server has prepared.
pub struct Registry {
    configs: Vec<Config>,
}

impl Registry {
    /// The prepared configurations, in the order in which they were
    /// registered.
    pub closed spec fn configs(&self) -> Seq<Config> {
        self.configs@
    }

    /// The languages of the prepared configurations, in the order in which
    /// they were registered.
    pub open spec fn languages(&self) -> Seq<Language> {
        Seq::new(self.configs().len(), |i: int| self.configs()[i].fb_language)
    }

    /// Whether configuration `i` is the first of a language.
    pub open spec fn is_first(&self, i: int, language: Language) -> bool {
        &&& 0 <= i < self.configs().len()
        &&& self.configs()[i].fb_language == language
        &&& forall|k: int| 0 <= k < i ==> (#[trigger] self.configs()[k]).fb_language != language
    }

    /// Whether a language is prepared.
    pub open spec fn supports(&self, language: Language) -> bool {
        self.languages().contains(language)
    }

    pub fn new() -> (registry: Registry)
        ensures
            registry.configs() == Seq::<Config>::empty(),
    {
        Registry { configs: Vec::new() }
    }

    /// Adds a prepared language.
    pub fn register(&mut self, config: Config)
        ensures
            final(self).configs() == old(self).configs().push(config),
    {
        self.configs.push(config);
    }

    /// The configuration of a language: the one registered first, if
    /// several are.
    pub fn get(&self, language: Language) -> (config: Option<&Config>)
        ensures
            config is Some <==> self.supports(language),
            config matches Some(c) ==> exists|i: int|
                self.is_first(i, language) && *c == self.configs()[i],
    {
        let mut i: usize = 0;
        while i < self.configs.len()
            invariant
                i <= self.configs.len(),
                forall|k: int| 0 <= k < i ==> self.configs@[k].fb_language != language,
            decreases self.configs.len() - i,
        {
            if self.configs[i].fb_language == language {
                assert(self.languages()[i as int] == language);
                assert(self.is_first(i as int, language));
                return Some(&self.configs[i]);
            }
            i += 1;
        }
        assert forall|k: int| 0 <= k < self.languages().len() implies self.languages()[k]
            != language by {
            assert(self.configs@[k].fb_language != language);
        }
        None
    }

    /// The configuration under which a language embedded in a file is
    /// highlighted: that of the language of this short name, if embedded
    /// languages are wanted and the language is prepared.
    pub fn injection(&self, name: &str, include_injections: bool) -> (config: Option<
        &tree_sitter_highlight::HighlightConfiguration,
    >)
        ensures
            config is Some <==> include_injections && (spec_from_name(name@) matches Some(l)
                && self.supports(l)),
            config matches Some(c) ==> exists|i: int|
                self.is_first(i, spec_from_name(name@)->Some_0) && *c == self.configs()[i]
                    .ts_config,
    {
        if !include_injections {
            return None;
        }
        match from_name(name) {
            None => None,
            Some(language) => match self.get(language) {
                None => None,
                Some(config) => Some(&config.ts_config),
            },
        }
    }
}

/// The markup that a renderer holds.
pub uninterp spec fn renderer_markup(renderer: tree_sitter_highlight::HtmlRenderer) -> Seq<u8>;

/// Where in its markup a renderer has each line start.
pub uninterp spec fn renderer_line_starts(
    renderer: tree_sitter_highlight::HtmlRenderer,
) -> Seq<u32>;

/// Whether a renderer marks no carriage returns: it was given no highlight
/// for them.
pub uninterp spec fn renderer_is_plain(renderer: tree_sitter_highlight::HtmlRenderer) -> bool;

/// Whether a renderer is as a new one: it holds no markup, has its one
/// line start at 0, and marks no carriage returns.
pub open spec fn renderer_is_fresh(renderer: tree_sitter_highlight::HtmlRenderer) -> bool {
    &&& renderer_markup(renderer) == Seq::<u8>::empty()
    &&& renderer_line_starts(renderer) == seq![0u32]
    &&& renderer_is_plain(renderer)
}

/// What a worker keeps between files: building a highlighter and a
/// renderer is costly, so each worker builds them once.
pub struct WorkerState {
    pub highlighter: tree_sitter_highlight::Highlighter,
    pub renderer: tree_sitter_highlight::HtmlRenderer,
}

/// Calls `Highlighter::new`.
#[verifier::external_body]
fn new_highlighter() -> tree_sitter_highlight::Highlighter {
    tree_sitter_highlight::Highlighter::new()
}

/// Calls `HtmlRenderer::new`, which makes a renderer without markup, with
/// one line start at 0 and without a highlight for carriage returns.
#[verifier::external_body]
fn new_renderer() -> (renderer: tree_sitter_highlight::HtmlRenderer)
    ensures
        renderer_is_fresh(renderer),
{
    tree_sitter_highlight::HtmlRenderer::new()
}

impl WorkerState {
    /// A worker with a highlighter and a renderer of its own. The renderer
    /// is fresh.
    pub fn new() -> (worker: WorkerState)
        ensures
            renderer_is_fresh(worker.renderer),
    {
        WorkerState { highlighter: new_highlighter(), renderer: new_renderer() }
    }
}

/// Calls `Highlighter::highlight` and collects the events up to the first
/// error. The highlighter polls `cancel` as it goes and gives up with an
/// error once it finds it nonzero. For a language embedded in the file it
/// asks the registry. Nothing is claimed of the events: what comes back
/// depends on when the token is raised.
#[verifier::external_body]
fn highlight_events(
    highlighter: &mut tree_sitter_highlight::Highlighter,
    configuration: &tree_sitter_highlight::HighlightConfiguration,
    source: &[u8],
    cancel: &AtomicUsize,
    registry: &Registry,
    include_injections: bool,
) -> Result<Vec<HighlightEvent>, tree_sitter_highlight::Error> {
    let events = highlighter.highlight(configuration, source, Some(cancel), |name|
        registry.injection(name, include_injections))?;
    events.map(|item| item.map(|event| match event {
        tree_sitter_highlight::HighlightEvent::Source { start, end } => {
            HighlightEvent::Source { start, end }
        },
        tree_sitter_highlight::HighlightEvent::HighlightStart(h) => {
            HighlightEvent::HighlightStart(h.0)
        },
        tree_sitter_highlight::HighlightEvent::HighlightEnd => HighlightEvent::HighlightEnd,
    })).collect()
}

/// Tells the variants of the highlighter's error apart.
#[verifier::external_body]
fn highlight_error_kind(error: &tree_sitter_highlight::Error) -> HighlightError {
    match error {
        tree_sitter_highlight::Error::Cancelled => HighlightError::Cancelled,
        tree_sitter_highlight::Error::InvalidLanguage => HighlightError::InvalidLanguage,
        tree_sitter_highlight::Error::Unknown => HighlightError::Unknown,
    }
}

/// What becomes of the highlighter's answer for a file of `len` bytes: an
/// error becomes the reason that stands for it, and events that do not fit
/// the file are answered as an unknown error.
pub fn accept_events(answer: Result<Vec<HighlightEvent>, HighlightError>, len: usize) -> (events:
    Result<Vec<HighlightEvent>, NonFatalError>)
    ensures
        events == match answer {
            Err(error) => Err::<Vec<HighlightEvent>, NonFatalError>(
                NonFatalError::spec_from_highlight(error),
            ),
            Ok(list) => if events_fit(list@, len as int) {
                Ok(list)
            } else {
                Err(NonFatalError::UnknownError)
            },
        },
{
    match answer {
        Err(error) => Err(NonFatalError::from(error)),
        Ok(list) => {
            if check_events(&list, len) {
                Ok(list)
            } else {
                Err(NonFatalError::UnknownError)
            }
        },
    }
}

/// Highlights a file in a language. A language that is not prepared is an
/// invalid language. Whatever the highlighter answers, events that come
/// back fit the file.
pub fn highlight(
    highlighter: &mut tree_sitter_highlight::Highlighter,
    registry: &Registry,
    language: Language,
    contents: &[u8],
    include_injections: bool,
    cancel: &AtomicUsize,
) -> (events: Result<Vec<HighlightEvent>, NonFatalError>)
    ensures
        !registry.supports(language) ==> events == Err::<Vec<HighlightEvent>, NonFatalError>(
            NonFatalError::InvalidLanguage,
        ),
        events matches Ok(list) ==> events_fit(list@, contents@.len() as int),
        events matches Err(reason) ==> reason == NonFatalError::InvalidLanguage || reason
            == NonFatalError::TimedOut || reason == NonFatalError::UnknownError,
{
    let config = match registry.get(language) {
        None => { return Err(NonFatalError::InvalidLanguage); },
        Some(config) => config,
    };
    let answer = match highlight_events(
        highlighter,
        &config.ts_config,
        contents,
        cancel,
        registry,
        include_injections,
    ) {
        Ok(list) => Ok(list),
        Err(error) => Err(highlight_error_kind(&error)),
    };
    accept_events(answer, contents.len())
}

/// What rendering leaves in a renderer: the markup, and where in it each
/// line starts.
pub struct Rendering {
    pub markup: Seq<u8>,
    pub line_starts: Seq<u32>,
}

/// What `HtmlRenderer::render` leaves in a fresh renderer that is handed
/// these events, this source and [`write_class_attribute`] as the writer
/// of attributes.
pub uninterp spec fn rendered(events: Seq<HighlightEvent>, source: Seq<u8>) -> Rendering;

/// Line `i` of markup: the text from its start up to the start of the
/// next line, or up to the end of the markup for the last line. `None`
/// where these are no run of the markup, or the run is no text.
pub open spec fn spec_line(markup: Seq<u8>, line_starts: Seq<u32>, i: int) -> Option<Seq<char>> {
    let start = line_starts[i] as int;
    let end = if i + 1 == line_starts.len() {
        markup.len() as int
    } else {
        line_starts[i + 1] as int
    };
    if start <= end <= markup.len() && valid_utf8(markup.subrange(start, end)) {
        Some(decode_utf8(markup.subrange(start, end)))
    } else {
        None
    }
}

/// The lines of markup, one for each line start; `None` if one of them is
/// none.
pub open spec fn spec_lines(markup: Seq<u8>, line_starts: Seq<u32>) -> Option<Seq<Seq<char>>> {
    if forall|i: int|
        0 <= i < line_starts.len() ==> (#[trigger] spec_line(markup, line_starts, i)) is Some {
        Some(Seq::new(line_starts.len(), |i: int| spec_line(markup, line_starts, i).unwrap()))
    } else {
        None
    }
}

/// The lines of markup, one for each line start.
pub fn split_lines(markup: &[u8], line_starts: &[u32]) -> (lines: Option<Vec<String>>)
    ensures
        spec_lines(markup@, line_starts@) == match lines {
            Some(l) => Some(name_views(l@)),
            None => None::<Seq<Seq<char>>>,
        },
{
    let mut lines: Vec<String> = Vec::new();
    let mut i: usize = 0;
    while i < line_starts.len()
        invariant
            i <= line_starts.len(),
            lines.len() == i,
            forall|k: int|
                0 <= k < i ==> (#[trigger] spec_line(markup@, line_starts@, k)) == Some(
                    lines@[k]@,
                ),
        decreases line_starts.len() - i,
    {
        let start: usize = line_starts[i] as usize;
        let end: usize = if i + 1 == line_starts.len() {
            markup.len()
        } else {
            line_starts[i + 1] as usize
        };
        if !(start <= end && end <= markup.len()) {
            assert(spec_line(markup@, line_starts@, i as int) is None);
            return None;
        }
        match text_of(slice_subrange(markup, start, end)) {
            None => {
                assert(spec_line(markup@, line_starts@, i as int) is None);
                return None;
            },
            Some(text) => {
                proof {
                    encode_utf8_decode_utf8(text@);
                }
                lines.push(text.to_owned());
            },
        }
        i += 1;
    }
    assert(name_views(lines@) =~= Seq::new(
        line_starts@.len(),
        |i: int| spec_line(markup@, line_starts@, i).unwrap(),
    ));
    Some(lines)
}

/// Calls `HtmlRenderer::set_carriage_return_highlight` with no highlight,
/// which changes nothing else in the renderer.
#[verifier::external_body]
fn mark_no_carriage_returns(renderer: &mut tree_sitter_highlight::HtmlRenderer)
    ensures
        renderer_is_plain(*final(renderer)),
        renderer_markup(*final(renderer)) == renderer_markup(*old(renderer)),
        renderer_line_starts(*final(renderer)) == renderer_line_starts(*old(renderer)),
{
    renderer.set_carriage_return_highlight(None);
}

/// Calls `HtmlRenderer::reset`, which empties the markup and leaves one
/// line start at 0. It leaves the highlight for carriage returns as it
/// is.
#[verifier::external_body]
fn reset_renderer(renderer: &mut tree_sitter_highlight::HtmlRenderer)
    ensures
        renderer_markup(*final(renderer)) == Seq::<u8>::empty(),
        renderer_line_starts(*final(renderer)) == seq![0u32],
        renderer_is_plain(*final(renderer)) == renderer_is_plain(*old(renderer)),
{
    renderer.reset();
}

/// Calls `HtmlRenderer::render` with the events, the source and
/// [`write_class_attribute`] as the writer of attributes. The renderer
/// reads the source at the runs that the events name and asks for the
/// attribute of each highlight that starts, so the events must fit the
/// source. It fails only on an event that is an error, and it is handed
/// none. What it leaves in a fresh renderer depends on the events and the
/// source alone: the contract gives that its name.
#[verifier::external_body]
fn render_events(
    renderer: &mut tree_sitter_highlight::HtmlRenderer,
    events: &Vec<HighlightEvent>,
    source: &[u8],
) -> (done: Result<(), tree_sitter_highlight::Error>)
    requires
        events_fit(events@, source@.len() as int),
        renderer_is_fresh(*old(renderer)),
    ensures
        done is Ok,
        renderer_markup(*final(renderer)) == rendered(events@, source@).markup,
        renderer_line_starts(*final(renderer)) == rendered(events@, source@).line_starts,
        renderer_is_plain(*final(renderer)),
{
    let raw = events.iter().map(|event| Ok(match *event {
        HighlightEvent::Source { start, end } => {
            tree_sitter_highlight::HighlightEvent::Source { start, end }
        },
        HighlightEvent::HighlightStart(index) => {
            let highlight = tree_sitter_highlight::Highlight(index);
            tree_sitter_highlight::HighlightEvent::HighlightStart(highlight)
        },
        HighlightEvent::HighlightEnd => tree_sitter_highlight::HighlightEvent::HighlightEnd,
    }));
    renderer.render(raw, source, &|h: tree_sitter_highlight::Highlight, out: &mut Vec<u8>|
        write_class_attribute(h.0, out))
}

/// Lends the markup that a renderer holds: its field `html`.
#[verifier::external_body]
fn markup_of(renderer: &tree_sitter_highlight::HtmlRenderer) -> (markup: &[u8])
    ensures
        markup@ == renderer_markup(*renderer),
{
    &renderer.html
}

/// Lends the line starts that a renderer holds: its field `line_offsets`.
#[verifier::external_body]
fn line_starts_of(renderer: &tree_sitter_highlight::HtmlRenderer) -> (line_starts: &[u32])
    ensures
        line_starts@ == renderer_line_starts(*renderer),
{
    &renderer.line_offsets
}

/// The lines that rendering events and a source gives: the lines of what
/// the renderer is left with.
pub open spec fn spec_render(events: Seq<HighlightEvent>, source: Seq<u8>) -> Option<
    Seq<Seq<char>>,
> {
    spec_lines(rendered(events, source).markup, rendered(events, source).line_starts)
}

/// Whether lines are the rendering of a source under some events that fit
/// it.
pub open spec fn is_rendering_of(lines: Seq<Seq<char>>, source: Seq<u8>) -> bool {
    exists|events: Seq<HighlightEvent>|
        #[trigger] events_fit(events, source.len() as int) && spec_render(events, source) == Some(
            lines,
        )
}

/// Renders events that fit a source into lines of markup. The renderer
/// starts afresh: it forgets its markup and marks no carriage returns. It
/// marks each highlight by what [`write_class_attribute`] writes for it.
/// The answer is the lines of the markup, or an unknown error where the
/// renderer is left with markup that has no lines.
pub fn render(
    renderer: &mut tree_sitter_highlight::HtmlRenderer,
    events: &Vec<HighlightEvent>,
    source: &[u8],
) -> (lines: Result<Vec<String>, NonFatalError>)
    requires
        events_fit(events@, source@.len() as int),
    ensures
        match spec_render(events@, source@) {
            Some(texts) => lines matches Ok(l) && name_views(l@) == texts,
            None => lines == Err::<Vec<String>, NonFatalError>(NonFatalError::UnknownError),
        },
        renderer_is_plain(*final(renderer)),
{
    mark_no_carriage_returns(renderer);
    reset_renderer(renderer);
    match render_events(renderer, events, source) {
        Err(error) => Err(NonFatalError::from(highlight_error_kind(&error))),
        Ok(()) => match split_lines(markup_of(renderer), line_starts_of(renderer)) {
            Some(lines) => Ok(lines),
            None => Err(NonFatalError::UnknownError),
        },
    }
}

} // verus!
