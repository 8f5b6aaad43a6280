//! Live log lines and the bars above and below the live view.
//!
//! Logs are short operational breadcrumbs for the current scan round. They are styled
//! apart from table data so phase changes and device updates remain readable in a
//! dense terminal layout.

use crate::model::Timestamp;
use crate::output::live::layout::fit_cell;
use crate::output::live::layout;
use crate::output::sources::source_legend as source_codes;
use crate::output::sources;
use crate::text::{chars, concat, concat3, find_char, join, owned, strip_prefix, text, words};
use crate::text;
use vstd::prelude::*;

verus! {

/// What a log line is about.
#[derive(Clone, Copy, Debug, PartialEq, Eq, Structural)]
pub enum LiveLogLevel {
    Info,
    Device,
    Warning,
}

/// A line of the live log.
#[derive(Debug, PartialEq, Eq)]
pub struct LiveLogEntry {
    pub timestamp: Timestamp,
    pub level: LiveLogLevel,
    pub message: String,
}

/// The mathematical content of a [`LiveLogEntry`].
#[verifier::ext_equal]
pub struct LiveLogEntryView {
    pub timestamp: Timestamp,
    pub level: LiveLogLevel,
    pub message: Seq<char>,
}

impl View for LiveLogEntry {
    type V = LiveLogEntryView;

    open spec fn view(&self) -> LiveLogEntryView {
        LiveLogEntryView {
            timestamp: self.timestamp,
            level: self.level,
            message: self.message@,
        }
    }
}

impl DeepView for LiveLogEntry {
    type V = LiveLogEntryView;

    open spec fn deep_view(&self) -> LiveLogEntryView {
        self@
    }
}

/// The role of a piece of text, for its color.
#[derive(Clone, Copy, Debug, PartialEq, Eq, Structural)]
pub enum Tone {
    /// Blank space of a panel.
    Panel,
    /// A key of the fixed lines.
    Label,
    /// A value of the fixed lines.
    Value,
    /// The time of a log line.
    Time,
    /// The text of a log line.
    Log(LiveLogLevel),
    /// A key of a log line. It stays in the color of its line, but stands out.
    LogKey(LiveLogLevel),
}

/// A piece of text with its role.
#[derive(Debug, PartialEq, Eq)]
pub struct TextSpan {
    pub text: String,
    pub tone: Tone,
}

/// The mathematical content of a [`TextSpan`].
#[verifier::ext_equal]
pub struct TextSpanView {
    pub text: Seq<char>,
    pub tone: Tone,
}

impl View for TextSpan {
    type V = TextSpanView;

    open spec fn view(&self) -> TextSpanView {
        TextSpanView { text: self.text@, tone: self.tone }
    }
}

impl DeepView for TextSpan {
    type V = TextSpanView;

    open spec fn deep_view(&self) -> TextSpanView {
        self@
    }
}

/// A piece of text with its role.
pub open spec fn span(text: Seq<char>, tone: Tone) -> TextSpanView {
    TextSpanView { text, tone }
}

/// The text of a line.
pub open spec fn line_text(spans: Seq<TextSpanView>) -> Seq<char>
    decreases spans.len(),
{
    if spans.len() == 0 {
        seq![]
    } else {
        line_text(spans.drop_last()) + spans.last().text
    }
}

/// The text of two lines in a row.
proof fn lemma_line_text(a: Seq<TextSpanView>, b: Seq<TextSpanView>)
    ensures
        line_text(a + b) == line_text(a) + line_text(b),
    decreases b.len(),
{
    if b.len() == 0 {
        assert(a + b =~= a);
    } else {
        lemma_line_text(a, b.drop_last());
        assert((a + b).drop_last() =~= a + b.drop_last());
        assert(line_text(a + b) =~= line_text(a) + line_text(b));
    }
}

/// The text of a single piece.
proof fn lemma_one_span(s: TextSpanView)
    ensures
        line_text(seq![s]) == s.text,
{
    reveal_with_fuel(line_text, 2);
    assert(seq![s].drop_last() =~= seq![]);
    assert(line_text(seq![s]) =~= s.text);
}

/// Appends a piece of text to a line.
fn push_span(line: &mut Vec<TextSpan>, text: String, tone: Tone)
    ensures
        final(line).deep_view() == old(line).deep_view().push(span(text@, tone)),
{
    let ghost before = line.deep_view();
    line.push(TextSpan { text, tone });
    proof {
        assert(line.deep_view() =~= before.push(span(text@, tone)));
    }
}

/// The spans of a word of a log line: a blank, and the word with its key set apart.
pub open spec fn token_spans(level: LiveLogLevel, token: Seq<char>) -> Seq<TextSpanView> {
    let k = text::char_index(token, '=');
    if k < token.len() {
        seq![
            span(" "@, Tone::Log(level)),
            span(token.take(k + 1), Tone::LogKey(level)),
            span(token.skip(k + 1), Tone::Log(level)),
        ]
    } else {
        seq![span(" "@, Tone::Log(level)), span(token, Tone::Log(level))]
    }
}

/// The spans of words of a log line.
pub open spec fn tokens_spans(level: LiveLogLevel, tokens: Seq<Seq<char>>) -> Seq<TextSpanView>
    decreases tokens.len(),
{
    if tokens.len() == 0 {
        seq![]
    } else {
        tokens_spans(level, tokens.drop_last()) + token_spans(level, tokens.last())
    }
}

/// A log line: its time, and the words of its message.
pub open spec fn log_line_spec(
    level: LiveLogLevel,
    clock: Seq<char>,
    message: Seq<char>,
    max_chars: nat,
) -> Seq<TextSpanView> {
    let tokens = text::words_spec(layout::fit_spec(clock + " "@ + message, max_chars));
    if tokens.len() == 0 {
        seq![]
    } else {
        seq![span(tokens[0], Tone::Time)] + tokens_spans(level, tokens.skip(1))
    }
}

/// Appends a word of a log line.
fn push_token(line: &mut Vec<TextSpan>, level: LiveLogLevel, token: &[char])
    ensures
        final(line).deep_view() == old(line).deep_view() + token_spans(level, token@),
{
    let ghost before = line.deep_view();
    push_span(line, owned(" "), Tone::Log(level));
    let k: usize = find_char(token, '=');
    proof {
        crate::text::lemma_char_index(token@, '=');
    }
    if k < token.len() {
        let key = vstd::slice::slice_subrange(token, 0, k + 1);
        let value = vstd::slice::slice_subrange(token, k + 1, token.len());
        proof {
            assert(key@ =~= token@.take(k + 1));
            assert(value@ =~= token@.skip(k + 1));
        }
        push_span(line, text(key), Tone::LogKey(level));
        push_span(line, text(value), Tone::Log(level));
    } else {
        push_span(line, text(token), Tone::Log(level));
    }
    proof {
        assert(line.deep_view() =~= before + token_spans(level, token@));
    }
}

/// Builds a log line. `clock` is the local clock time of the entry.
pub fn styled_log_line(entry: &LiveLogEntry, clock: &str, max_chars: usize) -> (r: Vec<TextSpan>)
    ensures
        r.deep_view() == log_line_spec(entry@.level, clock@, entry@.message, max_chars as nat),
{
    let raw = concat3(clock, " ", entry.message.as_str());
    let fitted = chars(fit_cell(raw, max_chars).as_str());
    let tokens = words(fitted.as_slice());
    let ghost views = crate::text::slice_views(tokens@);
    let mut line: Vec<TextSpan> = Vec::new();
    if tokens.len() == 0 {
        proof {
            assert(line.deep_view() =~= seq![]);
        }
        return line;
    }
    push_span(&mut line, text(tokens[0]), Tone::Time);
    let ghost head = line.deep_view();
    let ghost rest = views.skip(1);
    let mut i: usize = 1;
    proof {
        assert(views[0] == tokens@[0]@);
        assert(head =~= seq![span(views[0], Tone::Time)]);
        assert(rest.take(0) =~= seq![]);
        assert(head + tokens_spans(entry.level, rest.take(0)) =~= head);
    }
    while i < tokens.len()
        invariant
            1 <= i <= tokens@.len(),
            views == crate::text::slice_views(tokens@),
            rest == views.skip(1),
            line.deep_view() == head + tokens_spans(entry.level, rest.take(i - 1)),
        decreases tokens@.len() - i,
    {
        let ghost before = line.deep_view();
        push_token(&mut line, entry.level, tokens[i]);
        proof {
            assert(rest[i - 1] == tokens@[i as int]@);
            assert(rest.take(i as int).drop_last() =~= rest.take(i - 1));
            assert(rest.take(i as int).last() == rest[i - 1]);
            assert(line.deep_view() =~= head + tokens_spans(entry.level, rest.take(i as int)));
        }
        i = i + 1;
    }
    proof {
        assert(rest.take(i - 1) =~= rest);
        assert(line.deep_view() =~= log_line_spec(
            entry@.level,
            clock@,
            entry@.message,
            max_chars as nat,
        ));
    }
    line
}

/// So many blanks.
pub open spec fn blanks_spec(n: nat) -> Seq<char> {
    Seq::new(n, |i: int| ' ')
}

/// Writes so many blanks.
fn blanks(n: usize) -> (r: String)
    ensures
        r@ == blanks_spec(n as nat),
{
    let mut out: String = String::new();
    let mut i: usize = 0;
    while i < n
        invariant
            i <= n,
            out@ == blanks_spec(i as nat),
        decreases n - i,
    {
        out.push(' ');
        i = i + 1;
        proof {
            assert(out@ =~= blanks_spec(i as nat));
        }
    }
    out
}

/// A text with the label at its start set apart.
pub open spec fn labelled(text: Seq<char>, label: Seq<char>) -> Seq<TextSpanView> {
    match text::strip_prefix_spec(text, label) {
        Some(rest) => seq![span(label, Tone::Label), span(rest, Tone::Value)],
        None => if text.len() == 0 {
            seq![]
        } else {
            seq![span(text, Tone::Value)]
        },
    }
}

/// Appends a text with the label at its start set apart.
fn push_labelled(line: &mut Vec<TextSpan>, value: String, label: &str)
    ensures
        final(line).deep_view() == old(line).deep_view() + labelled(value@, label@),
{
    let ghost before = line.deep_view();
    let all = chars(value.as_str());
    match strip_prefix(all.as_slice(), label) {
        Some(rest) => {
            push_span(line, owned(label), Tone::Label);
            push_span(line, text(rest), Tone::Value);
        },
        None => {
            if all.len() > 0 {
                push_span(line, value, Tone::Value);
            }
        },
    }
    proof {
        assert(line.deep_view() =~= before + labelled(value@, label@));
    }
}

/// A bar of a width: a text on the left, cut where it has to be, and an indicator on
/// the right.
pub open spec fn bar_spec(
    width: nat,
    left: Seq<char>,
    label: Seq<char>,
    right: Seq<TextSpanView>,
) -> Seq<TextSpanView> {
    let right_text = line_text(right);
    let content = width - 2;
    if width == 0 {
        seq![]
    } else if width <= 2 {
        seq![span(blanks_spec(width), Tone::Panel)]
    } else if right_text.len() >= content {
        let fitted = layout::fit_spec(right_text, content as nat);
        seq![
            span(" "@, Tone::Panel),
            span(fitted, Tone::Label),
            span(blanks_spec((content - fitted.len() + 1) as nat), Tone::Panel),
        ]
    } else {
        let room = content - right_text.len() - 2;
        let shown = layout::fit_spec(
            left,
            if room < 0 {
                0
            } else {
                room as nat
            },
        );
        seq![span(" "@, Tone::Panel)] + labelled(shown, label) + seq![
            span(blanks_spec((content - shown.len() - right_text.len()) as nat), Tone::Panel),
        ] + right + seq![span(" "@, Tone::Panel)]
    }
}

/// A text with its label set apart is the same text.
proof fn lemma_labelled(text: Seq<char>, label: Seq<char>)
    ensures
        line_text(labelled(text, label)) == text,
{
    match text::strip_prefix_spec(text, label) {
        Some(rest) => {
            let a = seq![span(label, Tone::Label)];
            let b = seq![span(rest, Tone::Value)];
            lemma_one_span(a[0]);
            lemma_one_span(b[0]);
            lemma_line_text(a, b);
            assert(labelled(text, label) =~= a + b);
            assert(label + rest =~= text);
        },
        None => {
            if text.len() > 0 {
                lemma_one_span(span(text, Tone::Value));
            } else {
                assert(text =~= seq![]);
            }
        },
    }
}

/// A bar fills its row exactly, and keeps a blank at its right edge.
pub proof fn law_bar_fills_its_row(
    width: nat,
    left: Seq<char>,
    label: Seq<char>,
    right: Seq<TextSpanView>,
)
    ensures
        line_text(bar_spec(width, left, label, right)).len() == width,
        width > 0 ==> line_text(bar_spec(width, left, label, right)).last() == ' ',
{
    reveal_strlit(" ");
    let bar = bar_spec(width, left, label, right);
    let text = line_text(right);
    let content = width - 2;
    if width == 0 {
    } else if width <= 2 {
        lemma_one_span(span(blanks_spec(width), Tone::Panel));
    } else if text.len() >= content {
        let fitted = layout::fit_spec(text, content as nat);
        let a = span(" "@, Tone::Panel);
        let b = span(fitted, Tone::Label);
        let c = span(blanks_spec((content - fitted.len() + 1) as nat), Tone::Panel);
        lemma_one_span(a);
        lemma_one_span(b);
        lemma_one_span(c);
        lemma_line_text(seq![a], seq![b]);
        lemma_line_text(seq![a] + seq![b], seq![c]);
        assert(bar =~= seq![a] + seq![b] + seq![c]);
    } else {
        let room = content - text.len() - 2;
        let shown = layout::fit_spec(
            left,
            if room < 0 {
                0
            } else {
                room as nat
            },
        );
        let a = seq![span(" "@, Tone::Panel)];
        let b = labelled(shown, label);
        let c = seq![
            span(blanks_spec((content - shown.len() - text.len()) as nat), Tone::Panel),
        ];
        lemma_one_span(a[0]);
        lemma_labelled(shown, label);
        lemma_one_span(c[0]);
        lemma_line_text(a, b);
        lemma_line_text(a + b, c);
        lemma_line_text(a + b + c, right);
        lemma_line_text(a + b + c + right, a);
    }
}

/// Builds a bar.
fn bar(width: usize, left: String, label: &str, right: Vec<TextSpan>, right_text: String) -> (r:
    Vec<TextSpan>)
    requires
        right_text@ == line_text(right.deep_view()),
    ensures
        r.deep_view() == bar_spec(width as nat, left@, label@, right.deep_view()),
{
    let ghost right_views = right.deep_view();
    let mut line: Vec<TextSpan> = Vec::new();
    if width == 0 {
        proof {
            assert(line.deep_view() =~= seq![]);
        }
        return line;
    }
    if width <= 2 {
        push_span(&mut line, blanks(width), Tone::Panel);
        proof {
            assert(line.deep_view() =~= bar_spec(width as nat, left@, label@, right_views));
        }
        return line;
    }
    let content: usize = width - 2;
    let right_len: usize = chars(right_text.as_str()).len();
    push_span(&mut line, owned(" "), Tone::Panel);
    if right_len >= content {
        let fitted = fit_cell(right_text, content);
        let fitted_len: usize = chars(fitted.as_str()).len();
        push_span(&mut line, fitted, Tone::Label);
        push_span(&mut line, blanks(content - fitted_len + 1), Tone::Panel);
        proof {
            assert(line.deep_view() =~= bar_spec(width as nat, left@, label@, right_views));
        }
        return line;
    }
    let room: usize = (content - right_len).saturating_sub(2);
    let shown = fit_cell(left, room);
    let shown_len: usize = chars(shown.as_str()).len();
    push_labelled(&mut line, shown, label);
    push_span(&mut line, blanks(content - shown_len - right_len), Tone::Panel);
    let ghost front = line.deep_view();
    let mut tail = right;
    proof {
        assert(front + right_views =~= front + tail.deep_view());
    }
    line.append(&mut tail);
    proof {
        assert(line.deep_view() =~= front + right_views);
    }
    push_span(&mut line, owned(" "), Tone::Panel);
    proof {
        assert(line.deep_view() =~= bar_spec(width as nat, left@, label@, right_views));
    }
    line
}

/// What the keys do.
pub open spec fn help_text() -> Seq<char> {
    "Keys: /=Filter j=Down k=Up Ctrl-D=PageDown Ctrl-U=PageUp Ctrl-Z=Pause Ctrl-C=Quit"@
}

/// The clock on the right of the help bar.
pub open spec fn clock_spans(clock: Seq<char>) -> Seq<TextSpanView> {
    seq![span("Now="@, Tone::Label), span(clock, Tone::Value)]
}

/// Builds the help bar. `clock` is the local clock time.
pub fn help_line(width: usize, clock: &str) -> (r: Vec<TextSpan>)
    ensures
        r.deep_view() == bar_spec(width as nat, help_text(), "Keys:"@, clock_spans(clock@)),
{
    let mut right: Vec<TextSpan> = Vec::new();
    push_span(&mut right, owned("Now="), Tone::Label);
    push_span(&mut right, owned(clock), Tone::Value);
    proof {
        assert(right.deep_view() =~= clock_spans(clock@));
        let a = seq![span("Now="@, Tone::Label)];
        let b = seq![span(clock@, Tone::Value)];
        lemma_one_span(a[0]);
        lemma_one_span(b[0]);
        lemma_line_text(a, b);
        assert(clock_spans(clock@) =~= a + b);
    }
    let right_text = concat("Now=", clock);
    bar(
        width,
        owned("Keys: /=Filter j=Down k=Up Ctrl-D=PageDown Ctrl-U=PageUp Ctrl-Z=Pause Ctrl-C=Quit"),
        "Keys:",
        right,
        right_text,
    )
}

/// The texts of the legend.
pub open spec fn legend_items() -> Seq<Seq<char>> {
    Seq::new(sources::legend_spec().len(), |i: int| sources::legend_spec()[i].0 + "="@ + sources::legend_spec()[i].1)
}

/// The legend of the source codes.
pub open spec fn legend_text() -> Seq<char> {
    "Sources: "@ + text::join_spec(legend_items(), "  "@)
}

/// Writes the legend of the source codes.
fn source_legend_text() -> (r: String)
    ensures
        r@ == legend_text(),
{
    let legend = source_codes();
    let ghost pairs = sources::pairs_view(legend@);
    let ghost want = legend_items();
    let mut items: Vec<String> = Vec::new();
    let mut i: usize = 0;
    proof {
        assert(items.deep_view() =~= want.take(0));
    }
    while i < legend.len()
        invariant
            i <= legend@.len(),
            pairs == sources::pairs_view(legend@),
            pairs == sources::legend_spec(),
            want == legend_items(),
            items.deep_view() == want.take(i as int),
        decreases legend@.len() - i,
    {
        let ghost before = items.deep_view();
        let (code, label) = legend[i];
        items.push(concat3(code, "=", label));
        proof {
            assert(pairs[i as int] == (code@, label@));
            assert(items.deep_view() =~= before.push(want[i as int]));
            assert(want.take(i + 1) =~= want.take(i as int).push(want[i as int]));
        }
        i = i + 1;
    }
    proof {
        assert(want.take(i as int) =~= want);
    }
    concat("Sources: ", join(&items, "  ").as_str())
}

/// The indicator on the right of the footer, with its key set apart.
pub open spec fn filter_spans(filter: Seq<char>) -> Seq<TextSpanView> {
    let k = text::char_index(filter, '=');
    if k < filter.len() {
        seq![span(filter.take(k + 1), Tone::Label), span(filter.skip(k + 1), Tone::Label)]
    } else {
        seq![span(filter, Tone::Label)]
    }
}

/// The indicator reads as it was given.
pub proof fn lemma_filter_spans(filter: Seq<char>)
    ensures
        line_text(filter_spans(filter)) == filter,
{
    crate::text::lemma_char_index(filter, '=');
    let k = text::char_index(filter, '=');
    if k < filter.len() {
        let a = seq![span(filter.take(k + 1), Tone::Label)];
        let b = seq![span(filter.skip(k + 1), Tone::Label)];
        lemma_one_span(a[0]);
        lemma_one_span(b[0]);
        lemma_line_text(a, b);
        assert(filter_spans(filter) =~= a + b);
        assert(filter.take(k + 1) + filter.skip(k + 1) =~= filter);
    } else {
        lemma_one_span(span(filter, Tone::Label));
    }
}

/// Builds the footer with an indicator on its right.
pub fn source_footer_line(width: usize, filter: String) -> (r: Vec<TextSpan>)
    ensures
        r.deep_view() == bar_spec(
            width as nat,
            legend_text(),
            "Sources:"@,
            filter_spans(filter@),
        ),
{
    let all = chars(filter.as_str());
    let k: usize = find_char(all.as_slice(), '=');
    let mut right: Vec<TextSpan> = Vec::new();
    proof {
        crate::text::lemma_char_index(all@, '=');
        lemma_filter_spans(filter@);
    }
    if k < all.len() {
        let key = vstd::slice::slice_subrange(all.as_slice(), 0, k + 1);
        let value = vstd::slice::slice_subrange(all.as_slice(), k + 1, all.len());
        proof {
            assert(key@ =~= all@.take(k + 1));
            assert(value@ =~= all@.skip(k + 1));
        }
        push_span(&mut right, text(key), Tone::Label);
        push_span(&mut right, text(value), Tone::Label);
    } else {
        push_span(&mut right, filter.clone(), Tone::Label);
    }
    proof {
        assert(right.deep_view() =~= filter_spans(filter@));
    }
    bar(width, source_legend_text(), "Sources:", right, filter)
}

/// The footer without an indicator.
pub open spec fn legend_line_spec(width: nat) -> Seq<TextSpanView> {
    if width == 0 {
        seq![]
    } else {
        seq![span(" "@, Tone::Panel)] + labelled(
            layout::fit_spec(legend_text(), (width - 1) as nat),
            "Sources:"@,
        )
    }
}

/// Builds the footer: the legend, and an indicator where there is one.
pub fn source_legend(width: u16, filter: Option<String>) -> (r: Vec<TextSpan>)
    ensures
        r.deep_view() == (match filter {
            Some(filter) => bar_spec(
                width as nat,
                legend_text(),
                "Sources:"@,
                filter_spans(filter@),
            ),
            None => legend_line_spec(width as nat),
        }),
{
    match filter {
        Some(filter) => source_footer_line(width as usize, filter),
        None => {
            let mut line: Vec<TextSpan> = Vec::new();
            if width > 0 {
                push_span(&mut line, owned(" "), Tone::Panel);
                push_labelled(
                    &mut line,
                    fit_cell(source_legend_text(), width as usize - 1),
                    "Sources:",
                );
            }
            proof {
                assert(line.deep_view() =~= legend_line_spec(width as nat));
            }
            line
        },
    }
}

} // verus!
