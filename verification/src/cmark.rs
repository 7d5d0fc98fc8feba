//! The inline-run tokenizer: converts one line of Markdown into a sequence of
//! styled text runs. The markup events come from an outside Markdown parser;
//! the reduction of events to runs is a verified one-pass state machine.

use vstd::prelude::*;
use vstd::string::StringExecFns;

use pulldown_cmark::{Event, Options, Parser, Tag, TextMergeStream};

verus! {

/// One markup event over a line of text, after merging adjacent text spans:
/// the start of one of the three recognized style spans, the start of any
/// other container, a text span, the end of any container, or anything else.
pub enum MdEvent {
    EmphasisStart,
    StrongStart,
    StrikethroughStart,
    OtherStart,
    Text(String),
    End,
    Other,
}

/// A span of text sharing one style attribute.
pub struct Run {
    pub text: String,
    pub bold: bool,
    pub italic: bool,
    pub strikethrough: bool,
}

/// The mathematical value of a `Run`.
pub struct RunView {
    pub text: Seq<char>,
    pub bold: bool,
    pub italic: bool,
    pub strikethrough: bool,
}

impl View for Run {
    type V = RunView;

    open spec fn view(&self) -> RunView {
        RunView {
            text: self.text@,
            bold: self.bold,
            italic: self.italic,
            strikethrough: self.strikethrough,
        }
    }
}

/// An empty, unstyled run.
pub open spec fn empty_run_view() -> RunView {
    RunView { text: Seq::empty(), bold: false, italic: false, strikethrough: false }
}

/// An empty run carrying exactly one of the three styles, or none.
pub open spec fn styled_run_view(bold: bool, italic: bool, strikethrough: bool) -> RunView {
    RunView { text: Seq::empty(), bold: bold, italic: italic, strikethrough: strikethrough }
}

/// The runs produced by the remaining events, given the current accumulator
/// run and the runs already emitted: a style start flushes the accumulator
/// and opens a styled one, text extends the accumulator, a container end
/// flushes and opens a plain one, and every other event is ignored. An
/// accumulator left open when the events end is dropped.
pub open spec fn runs_from(events: Seq<MdEvent>, cur: RunView, acc: Seq<RunView>) -> Seq<RunView>
    decreases events.len(),
{
    if events.len() == 0 {
        acc
    } else {
        let rest = events.drop_first();
        match events[0] {
            MdEvent::EmphasisStart => runs_from(
                rest,
                styled_run_view(false, true, false),
                acc.push(cur),
            ),
            MdEvent::StrongStart => runs_from(rest, styled_run_view(true, false, false), acc.push(cur)),
            MdEvent::StrikethroughStart => runs_from(
                rest,
                styled_run_view(false, false, true),
                acc.push(cur),
            ),
            MdEvent::OtherStart => runs_from(rest, cur, acc),
            MdEvent::Text(t) => runs_from(
                rest,
                RunView { text: cur.text + t@, bold: cur.bold, italic: cur.italic, strikethrough: cur.strikethrough },
                acc,
            ),
            MdEvent::End => runs_from(rest, empty_run_view(), acc.push(cur)),
            MdEvent::Other => runs_from(rest, cur, acc),
        }
    }
}

/// The runs of a whole event stream.
pub open spec fn runs_of_events(events: Seq<MdEvent>) -> Seq<RunView> {
    runs_from(events, empty_run_view(), Seq::empty())
}

/// The mathematical value of a vector of runs.
pub open spec fn runs_vw(s: Seq<Run>) -> Seq<RunView> {
    s.map_values(|r: Run| r@)
}

/// Whether a run carries at most one of the three style attributes.
pub open spec fn single_styled(r: RunView) -> bool {
    &&& !(r.bold && r.italic)
    &&& !(r.bold && r.strikethrough)
    &&& !(r.italic && r.strikethrough)
}

proof fn lemma_runs_from_single_style(events: Seq<MdEvent>, cur: RunView, acc: Seq<RunView>)
    requires
        single_styled(cur),
        forall|i: int| 0 <= i < acc.len() ==> single_styled(#[trigger] acc[i]),
    ensures
        forall|i: int|
            0 <= i < runs_from(events, cur, acc).len() ==> single_styled(
                #[trigger] runs_from(events, cur, acc)[i],
            ),
    decreases events.len(),
{
    if events.len() > 0 {
        let rest = events.drop_first();
        assert(forall|k: int|
            0 <= k < acc.push(cur).len() ==> single_styled(#[trigger] acc.push(cur)[k]));
        match events[0] {
            MdEvent::EmphasisStart => {
                lemma_runs_from_single_style(rest, styled_run_view(false, true, false), acc.push(cur));
                assert(runs_from(events, cur, acc) == runs_from(
                    rest,
                    styled_run_view(false, true, false),
                    acc.push(cur),
                ));
            },
            MdEvent::StrongStart => {
                lemma_runs_from_single_style(rest, styled_run_view(true, false, false), acc.push(cur));
                assert(runs_from(events, cur, acc) == runs_from(
                    rest,
                    styled_run_view(true, false, false),
                    acc.push(cur),
                ));
            },
            MdEvent::StrikethroughStart => {
                lemma_runs_from_single_style(rest, styled_run_view(false, false, true), acc.push(cur));
                assert(runs_from(events, cur, acc) == runs_from(
                    rest,
                    styled_run_view(false, false, true),
                    acc.push(cur),
                ));
            },
            MdEvent::OtherStart => {
                lemma_runs_from_single_style(rest, cur, acc);
                assert(runs_from(events, cur, acc) == runs_from(rest, cur, acc));
            },
            MdEvent::Text(t) => {
                let extended = RunView {
                    text: cur.text + t@,
                    bold: cur.bold,
                    italic: cur.italic,
                    strikethrough: cur.strikethrough,
                };
                lemma_runs_from_single_style(rest, extended, acc);
                assert(runs_from(events, cur, acc) == runs_from(rest, extended, acc));
            },
            MdEvent::End => {
                lemma_runs_from_single_style(rest, empty_run_view(), acc.push(cur));
                assert(runs_from(events, cur, acc) == runs_from(
                    rest,
                    empty_run_view(),
                    acc.push(cur),
                ));
            },
            MdEvent::Other => {
                lemma_runs_from_single_style(rest, cur, acc);
                assert(runs_from(events, cur, acc) == runs_from(rest, cur, acc));
            },
        }
    }
}

/// Styles are mutually exclusive per run: the tokenizer flushes a new run on
/// every style transition and never composes styles, so no run it yields ever
/// carries more than one style attribute.
pub proof fn lemma_runs_single_style(events: Seq<MdEvent>)
    ensures
        forall|i: int|
            0 <= i < runs_of_events(events).len() ==> single_styled(
                #[trigger] runs_of_events(events)[i],
            ),
{
    lemma_runs_from_single_style(events, empty_run_view(), Seq::empty());
}

/// Reduce an event stream to its styled runs.
pub fn tokenize(events: &Vec<MdEvent>) -> (r: Vec<Run>)
    ensures
        runs_vw(r@) == runs_of_events(events@),
{
    let n = events.len();
    let mut out: Vec<Run> = Vec::new();
    let mut cur = Run { text: String::new(), bold: false, italic: false, strikethrough: false };
    let mut i: usize = 0;
    proof {
        assert(events@.skip(0) =~= events@);
        assert(runs_vw(out@) =~= Seq::<RunView>::empty());
    }
    while i < n
        invariant
            i <= n,
            n == events@.len(),
            runs_of_events(events@) == runs_from(events@.skip(i as int), cur@, runs_vw(out@)),
        decreases n - i,
    {
        proof {
            assert(events@.skip(i as int)[0] == events@[i as int]);
            assert(events@.skip(i as int).drop_first() =~= events@.skip(i as int + 1));
        }
        let ghost pre_out = runs_vw(out@);
        let ghost pre_cur = cur@;
        match &events[i] {
            MdEvent::EmphasisStart => {
                out.push(cur);
                cur = Run { text: String::new(), bold: false, italic: true, strikethrough: false };
                proof {
                    assert(runs_vw(out@) =~= pre_out.push(pre_cur));
                }
            },
            MdEvent::StrongStart => {
                out.push(cur);
                cur = Run { text: String::new(), bold: true, italic: false, strikethrough: false };
                proof {
                    assert(runs_vw(out@) =~= pre_out.push(pre_cur));
                }
            },
            MdEvent::StrikethroughStart => {
                out.push(cur);
                cur = Run { text: String::new(), bold: false, italic: false, strikethrough: true };
                proof {
                    assert(runs_vw(out@) =~= pre_out.push(pre_cur));
                }
            },
            MdEvent::OtherStart => {},
            MdEvent::Text(t) => {
                cur.text.append(t.as_str());
            },
            MdEvent::End => {
                out.push(cur);
                cur = Run { text: String::new(), bold: false, italic: false, strikethrough: false };
                proof {
                    assert(runs_vw(out@) =~= pre_out.push(pre_cur));
                }
            },
            MdEvent::Other => {},
        }
        i = i + 1;
    }
    proof {
        assert(events@.skip(n as int) =~= Seq::<MdEvent>::empty());
    }
    out
}

/// The markup events that the Markdown parser yields for one line of text,
/// with adjacent text spans merged.
pub uninterp spec fn events_of(line: Seq<char>) -> Seq<MdEvent>;

/// Relies on `pulldown_cmark::Parser` (with strikethrough enabled) wrapped in
/// `pulldown_cmark::TextMergeStream`: the event stream is a function of the
/// input text alone, and an empty input yields no events.
#[verifier::external_body]
fn parse_events(input: &str) -> (r: Vec<MdEvent>)
    ensures
        r@ == events_of(input@),
        input@.len() == 0 ==> r@.len() == 0,
{
    let parser = Parser::new_ext(input, Options::ENABLE_STRIKETHROUGH);
    let mut out: Vec<MdEvent> = Vec::new();
    for event in TextMergeStream::new(parser) {
        out.push(match event {
            Event::Start(Tag::Emphasis) => MdEvent::EmphasisStart,
            Event::Start(Tag::Strong) => MdEvent::StrongStart,
            Event::Start(Tag::Strikethrough) => MdEvent::StrikethroughStart,
            Event::Start(_) => MdEvent::OtherStart,
            Event::Text(t) => MdEvent::Text(t.to_string()),
            Event::End(_) => MdEvent::End,
            _ => MdEvent::Other,
        });
    }
    out
}

/// Parse one line of a Markdown document into its styled runs.
pub fn parse_paragraph(input: &str) -> (r: Vec<Run>)
    ensures
        runs_vw(r@) == runs_of_events(events_of(input@)),
        input@.len() == 0 ==> r@.len() == 0,
{
    let events = parse_events(input);
    let runs = tokenize(&events);
    proof {
        if input@.len() == 0 {
            assert(runs_vw(runs@).len() == runs@.len());
        }
    }
    runs
}

} // verus!
