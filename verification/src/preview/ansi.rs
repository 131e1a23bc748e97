//! Colours of a terminal's output as styles of a line editor.
use vstd::prelude::*;
use crate::config;
use crate::number;
use crate::text;
use crate::number::{decimal_chars, hex_chars, parse_unsigned};
use crate::preview::file::MAX_PREVIEW_WIDTH;
use crate::text::{chars_of, extend, same_chars, span_end, split_pieces, text_of, Class};

verus! {

// ---------------------------------------------------------------------------
// Styles
// ---------------------------------------------------------------------------

/// How text looks.
pub struct AnsiStyle {
    pub foreground: Option<Vec<char>>,
    pub background: Option<Vec<char>>,
    pub bold: bool,
    pub underline: bool,
    pub standout: bool,
}

/// What a style says.
pub struct StyleView {
    pub foreground: Option<Seq<char>>,
    pub background: Option<Seq<char>>,
    pub bold: bool,
    pub underline: bool,
    pub standout: bool,
}

pub open spec fn color_view(color: Option<Vec<char>>) -> Option<Seq<char>> {
    match color {
        Some(c) => Some(c@),
        None => None,
    }
}

impl DeepView for AnsiStyle {
    type V = StyleView;

    open spec fn deep_view(&self) -> StyleView {
        StyleView {
            foreground: color_view(self.foreground),
            background: color_view(self.background),
            bold: self.bold,
            underline: self.underline,
            standout: self.standout,
        }
    }
}

pub open spec fn plain_style() -> StyleView {
    StyleView {
        foreground: None,
        background: None,
        bold: false,
        underline: false,
        standout: false,
    }
}

impl Default for AnsiStyle {
    /// Text without any style.
    fn default() -> (r: Self)
        ensures
            r.deep_view() == plain_style(),
    {
        AnsiStyle {
            foreground: None,
            background: None,
            bold: false,
            underline: false,
            standout: false,
        }
    }
}

pub open spec fn one_if(b: bool, s: Seq<char>) -> Seq<Seq<char>> {
    if b {
        seq![s]
    } else {
        Seq::empty()
    }
}

pub open spec fn colored(lead: Seq<char>, color: Option<Seq<char>>) -> Seq<Seq<char>> {
    match color {
        Some(c) => seq![lead + c],
        None => Seq::empty(),
    }
}

/// The parts of a style, as the line editor writes them.
pub open spec fn style_parts(style: StyleView) -> Seq<Seq<char>> {
    colored("fg="@, style.foreground) + colored("bg="@, style.background) + one_if(
        style.bold,
        "bold"@,
    ) + one_if(style.underline, "underline"@) + one_if(style.standout, "standout"@)
}

/// A style, as the line editor writes it.
pub open spec fn style_text(style: StyleView) -> Seq<char> {
    text::join(style_parts(style), seq![','])
}

proof fn lemma_join_push(list: Seq<Seq<char>>, one: Seq<char>, sep: Seq<char>)
    ensures
        text::join(list.push(one), sep) == if list.len() == 0 {
            one
        } else {
            text::join(list, sep) + sep + one
        },
{
    assert(list.push(one).drop_last() =~= list);
    if list.len() == 0 {
        assert(list.push(one)[0] == one);
    }
}

/// Adds a part to a list that is written with a separator.
fn push_part(out: &mut Vec<char>, count: &mut usize, part: &[char], sep: char, Ghost(list): Ghost<
    Seq<Seq<char>>,
>)
    requires
        old(out)@ == text::join(list, seq![sep]),
        *old(count) == list.len(),
        list.len() < usize::MAX,
    ensures
        final(out)@ == text::join(list.push(part@), seq![sep]),
        *final(count) == list.len() + 1,
{
    let ghost before = out@;
    proof {
        lemma_join_push(list, part@, seq![sep]);
    }
    if *count > 0 {
        out.push(sep);
    }
    extend(out, part);
    *count = *count + 1;
    assert(out@ =~= text::join(list.push(part@), seq![sep]));
}

impl AnsiStyle {
    /// A style, as the line editor writes it.
    pub fn zle(&self) -> (r: Vec<char>)
        ensures
            r@ == style_text(self.deep_view()),
    {
        let ghost style = self.deep_view();
        let ghost mut list: Seq<Seq<char>> = Seq::empty();
        let mut out: Vec<char> = Vec::new();
        let mut count: usize = 0;
        assert(out@ =~= text::join(list, seq![',']));
        if let Some(color) = &self.foreground {
            let mut part = chars_of("fg=");
            extend(&mut part, color.as_slice());
            push_part(&mut out, &mut count, part.as_slice(), ',', Ghost(list));
            proof {
                list = list.push(part@);
            }
        }
        assert(list =~= colored("fg="@, style.foreground));
        let ghost first = list;
        if let Some(color) = &self.background {
            let mut part = chars_of("bg=");
            extend(&mut part, color.as_slice());
            push_part(&mut out, &mut count, part.as_slice(), ',', Ghost(list));
            proof {
                list = list.push(part@);
            }
        }
        assert(list =~= first + colored("bg="@, style.background));
        let ghost second = list;
        if self.bold {
            let part = chars_of("bold");
            push_part(&mut out, &mut count, part.as_slice(), ',', Ghost(list));
            proof {
                list = list.push(part@);
            }
        }
        assert(list =~= second + one_if(style.bold, "bold"@));
        let ghost third = list;
        if self.underline {
            let part = chars_of("underline");
            push_part(&mut out, &mut count, part.as_slice(), ',', Ghost(list));
            proof {
                list = list.push(part@);
            }
        }
        assert(list =~= third + one_if(style.underline, "underline"@));
        let ghost fourth = list;
        if self.standout {
            let part = chars_of("standout");
            push_part(&mut out, &mut count, part.as_slice(), ',', Ghost(list));
            proof {
                list = list.push(part@);
            }
        }
        assert(list =~= fourth + one_if(style.standout, "standout"@));
        assert(list =~= style_parts(style));
        out
    }
}

// ---------------------------------------------------------------------------
// Changes of style
// ---------------------------------------------------------------------------

/// A parameter of a change of style; one that is no number counts as 0.
pub open spec fn parameter(s: Seq<char>) -> nat {
    match number::unsigned_value(s, 65535) {
        Some(n) => n,
        None => 0,
    }
}

/// The parameters of a change of style.
pub open spec fn parameters_of(s: Seq<char>) -> Seq<nat> {
    if s.len() == 0 {
        seq![0]
    } else {
        text::split_on(s, ';').map_values(|p: Seq<char>| parameter(p))
    }
}

pub open spec fn capped(n: nat) -> nat {
    if n > 255 {
        255
    } else {
        n
    }
}

/// A colour given by its parts.
pub open spec fn rgb(red: nat, green: nat, blue: nat) -> Seq<char> {
    seq!['#'] + number::hex_pair(capped(red)) + number::hex_pair(capped(green)) + number::hex_pair(capped(blue))
}

/// A colour behind the parameter at `i`, and the parameters that it takes.
pub open spec fn extended_color(values: Seq<nat>, i: int) -> (Option<Seq<char>>, int) {
    if i + 1 < values.len() && values[i + 1] == 5 {
        (
            if i + 2 < values.len() && values[i + 2] <= 255 {
                Some(number::decimal(values[i + 2]))
            } else {
                None
            },
            3,
        )
    } else if i + 1 < values.len() && values[i + 1] == 2 && i + 4 < values.len() {
        (Some(rgb(values[i + 2], values[i + 3], values[i + 4])), 5)
    } else {
        (None, 1)
    }
}

/// A style after one parameter that takes no others.
pub open spec fn simple_change(style: StyleView, value: nat) -> StyleView {
    if value == 0 {
        plain_style()
    } else if value == 1 {
        StyleView { bold: true, ..style }
    } else if value == 4 {
        StyleView { underline: true, ..style }
    } else if value == 7 {
        StyleView { standout: true, ..style }
    } else if value == 22 {
        StyleView { bold: false, ..style }
    } else if value == 24 {
        StyleView { underline: false, ..style }
    } else if value == 27 {
        StyleView { standout: false, ..style }
    } else if 30 <= value <= 37 {
        StyleView { foreground: Some(number::decimal((value - 30) as nat)), ..style }
    } else if value == 39 {
        StyleView { foreground: None, ..style }
    } else if 40 <= value <= 47 {
        StyleView { background: Some(number::decimal((value - 40) as nat)), ..style }
    } else if value == 49 {
        StyleView { background: None, ..style }
    } else if 90 <= value <= 97 {
        StyleView { foreground: Some(number::decimal((value - 82) as nat)), ..style }
    } else if 100 <= value <= 107 {
        StyleView { background: Some(number::decimal((value - 92) as nat)), ..style }
    } else {
        style
    }
}

/// The position `count` behind `i`, or the end.
pub open spec fn behind(values: Seq<nat>, i: int, count: int) -> int {
    if i + count < values.len() {
        i + count
    } else {
        values.len() as int
    }
}

/// A style after the parameters from `i` on.
pub open spec fn changed_from(style: StyleView, values: Seq<nat>, i: int) -> StyleView
    decreases values.len() - i,
{
    if i < 0 || i >= values.len() {
        style
    } else if values[i] == 38 {
        let color = extended_color(values, i);
        changed_from(StyleView { foreground: color.0, ..style }, values, behind(values, i, color.1))
    } else if values[i] == 48 {
        let color = extended_color(values, i);
        changed_from(StyleView { background: color.0, ..style }, values, behind(values, i, color.1))
    } else {
        changed_from(simple_change(style, values[i]), values, i + 1)
    }
}

/// A style after a change.
pub open spec fn changed(style: StyleView, parameters: Seq<char>) -> StyleView {
    changed_from(style, parameters_of(parameters), 0)
}

pub open spec fn as_nats(list: Seq<u16>) -> Seq<nat> {
    list.map_values(|n: u16| n as nat)
}

fn read_parameters(parameters: &[char]) -> (r: Vec<u16>)
    ensures
        as_nats(r@) == parameters_of(parameters@),
{
    let mut values: Vec<u16> = Vec::new();
    if parameters.len() == 0 {
        values.push(0);
        assert(as_nats(values@) =~= seq![0nat]);
        return values;
    }
    let parts = split_pieces(parameters, ';');
    let ghost all = parameters_of(parameters@);
    let mut i: usize = 0;
    assert(as_nats(values@) =~= all.take(0));
    while i < parts.len()
        invariant
            i <= parts@.len(),
            parameters@.len() > 0,
            text::pieces(parts@) == text::split_on(parameters@, ';'),
            all == parameters_of(parameters@),
            as_nats(values@) == all.take(i as int),
        decreases parts.len() - i,
    {
        let ghost before = as_nats(values@);
        let value: u16 = match parse_unsigned(parts[i], 65535) {
            Some(n) => n as u16,
            None => 0,
        };
        values.push(value);
        proof {
            assert(text::pieces(parts@)[i as int] == parts@[i as int]@);
            assert(all[i as int] == value as nat);
            assert(as_nats(values@) =~= before.push(value as nat));
            assert(all.take(i + 1) =~= before.push(all[i as int]));
        }
        i += 1;
    }
    assert(all.take(all.len() as int) =~= all);
    values
}

fn color_number(n: u16) -> (r: Option<Vec<char>>)
    ensures
        color_view(r) == Some(number::decimal(n as nat)),
{
    Some(decimal_chars(n as u64))
}

fn capped_byte(n: u16) -> (r: u8)
    ensures
        r == capped(n as nat),
{
    if n > 255 {
        255
    } else {
        n as u8
    }
}

fn read_color(values: &Vec<u16>, i: usize) -> (r: (Option<Vec<char>>, usize))
    requires
        i < values@.len(),
    ensures
        color_view(r.0) == extended_color(as_nats(values@), i as int).0,
        r.1 == extended_color(as_nats(values@), i as int).1,
        1 <= r.1 <= 5,
{
    let n: usize = values.len();
    let left: usize = n - i;
    if left > 1 && values[i + 1] == 5 {
        if left > 2 && values[i + 2] <= 255 {
            return (color_number(values[i + 2]), 3);
        }
        return (None, 3);
    }
    if left > 4 && values[i + 1] == 2 {
        let mut color: Vec<char> = Vec::new();
        color.push('#');
        extend(&mut color, hex_chars(capped_byte(values[i + 2])).as_slice());
        extend(&mut color, hex_chars(capped_byte(values[i + 3])).as_slice());
        extend(&mut color, hex_chars(capped_byte(values[i + 4])).as_slice());
        proof {
            let v = as_nats(values@);
            assert(color@ =~= rgb(v[i + 2], v[i + 3], v[i + 4]));
        }
        return (Some(color), 5);
    }
    (None, 1)
}

impl AnsiStyle {
    fn change(&mut self, value: u16)
        requires
            value != 38,
            value != 48,
        ensures
            final(self).deep_view() == simple_change(old(self).deep_view(), value as nat),
    {
        if value == 0 {
            *self = AnsiStyle::default();
        } else if value == 1 {
            self.bold = true;
        } else if value == 4 {
            self.underline = true;
        } else if value == 7 {
            self.standout = true;
        } else if value == 22 {
            self.bold = false;
        } else if value == 24 {
            self.underline = false;
        } else if value == 27 {
            self.standout = false;
        } else if 30 <= value && value <= 37 {
            self.foreground = color_number(value - 30);
        } else if value == 39 {
            self.foreground = None;
        } else if 40 <= value && value <= 47 {
            self.background = color_number(value - 40);
        } else if value == 49 {
            self.background = None;
        } else if 90 <= value && value <= 97 {
            self.foreground = color_number(value - 82);
        } else if 100 <= value && value <= 107 {
            self.background = color_number(value - 92);
        }
    }

    /// Changes the style as a sequence with these parameters does.
    pub fn apply_sgr(&mut self, parameters: &[char])
        ensures
            final(self).deep_view() == changed(old(self).deep_view(), parameters@),
    {
        let values = read_parameters(parameters);
        let ghost all = as_nats(values@);
        let ghost start = self.deep_view();
        let mut i: usize = 0;
        while i < values.len()
            invariant
                i <= values@.len(),
                all == as_nats(values@),
                changed_from(start, all, 0) == changed_from(self.deep_view(), all, i as int),
            decreases values.len() - i,
        {
            let value: u16 = values[i];
            assert(all[i as int] == value as nat);
            let mut taken: usize = 1;
            if value == 38 || value == 48 {
                let (color, count) = read_color(&values, i);
                if value == 38 {
                    self.foreground = color;
                } else {
                    self.background = color;
                }
                taken = count;
            } else {
                self.change(value);
            }
            if values.len() - i <= taken {
                i = values.len();
            } else {
                i = i + taken;
            }
        }
    }
}

// ---------------------------------------------------------------------------
// Lines
// ---------------------------------------------------------------------------

/// A run of characters with a style.
pub struct Span {
    pub start: nat,
    pub end: nat,
    pub style: Seq<char>,
}

/// A line that is read up to some point.
pub struct Scan {
    pub text: Seq<char>,
    pub spans: Seq<Span>,
    pub style: StyleView,
    /// Where the run that is open started, and how it looks.
    pub run_start: nat,
    pub run_style: Seq<char>,
}

pub open spec fn blank_scan() -> Scan {
    Scan {
        text: Seq::empty(),
        spans: Seq::empty(),
        style: plain_style(),
        run_start: 0,
        run_style: Seq::empty(),
    }
}

/// The spans with the run that is open, if it has characters and a style.
pub open spec fn closed_spans(scan: Scan) -> Seq<Span> {
    if scan.run_start < scan.text.len() && scan.run_style.len() > 0 {
        scan.spans.push(
            Span { start: scan.run_start, end: scan.text.len(), style: scan.run_style },
        )
    } else {
        scan.spans
    }
}

/// A line after a change of style.
pub open spec fn restyled(scan: Scan, parameters: Seq<char>) -> Scan {
    let style = changed(scan.style, parameters);
    if style_text(style) == scan.run_style {
        Scan { style, ..scan }
    } else {
        Scan {
            text: scan.text,
            spans: closed_spans(scan),
            style,
            run_start: scan.text.len(),
            run_style: style_text(style),
        }
    }
}

/// A line with one more character: a blank for a tab, a question mark for what
/// is not ASCII, nothing for a control character.
pub open spec fn extended(scan: Scan, c: char) -> Scan {
    if c == '\t' {
        Scan { text: scan.text.push(' '), ..scan }
    } else if text::control(c) {
        scan
    } else if c <= '~' {
        Scan { text: scan.text.push(c), ..scan }
    } else {
        Scan { text: scan.text.push('?'), ..scan }
    }
}

/// The position behind an operating system command that starts before `i`: it
/// ends at a bell, or at an escape and a backslash.
pub open spec fn command_end(s: Seq<char>, i: int) -> int
    decreases s.len() - i,
{
    if i >= s.len() {
        s.len() as int
    } else if s[i] == '\u{7}' {
        i + 1
    } else if s[i] == '\u{1b}' && i + 1 < s.len() && s[i + 1] == '\\' {
        i + 2
    } else {
        command_end(s, i + 1)
    }
}

/// The position of the letter that ends a control sequence.
pub open spec fn sequence_end(s: Seq<char>, i: int) -> int {
    i + text::span(s.skip(i), Class::AsciiLetter, false)
}

/// A line read from `i` on, as long as there is room.
pub open spec fn scanned(s: Seq<char>, i: int, scan: Scan) -> Scan
    decreases s.len() - i,
{
    if i < 0 || i >= s.len() || scan.text.len() >= MAX_PREVIEW_WIDTH {
        scan
    } else if s[i] != '\u{1b}' {
        scanned(s, i + 1, extended(scan, s[i]))
    } else if i + 1 < s.len() && s[i + 1] == '[' {
        let end = sequence_end(s, i + 2);
        proof {
            text::lemma_span(s.skip(i + 2), Class::AsciiLetter, false);
        }
        if end < s.len() {
            if s[end] == 'm' {
                scanned(s, end + 1, restyled(scan, s.subrange(i + 2, end)))
            } else {
                scanned(s, end + 1, scan)
            }
        } else {
            scanned(s, i + 2, scan)
        }
    } else if i + 1 < s.len() && s[i + 1] == ']' {
        let end = command_end(s, i + 2);
        if i < end <= s.len() {
            scanned(s, end, scan)
        } else {
            scan
        }
    } else if i + 1 < s.len() {
        scanned(s, i + 2, scan)
    } else {
        scanned(s, i + 1, scan)
    }
}

/// A span, as the line editor reads it.
pub open spec fn span_text(one: Span) -> Seq<char> {
    number::decimal(one.start) + seq![':'] + number::decimal(one.end) + seq![':'] + one.style
}

pub open spec fn spans_text(spans: Seq<Span>) -> Seq<char> {
    text::join(spans.map_values(|one: Span| span_text(one)), seq![';'])
}

/// What a line of a preview says.
pub struct LineView {
    pub text: Seq<char>,
    pub styles: Seq<char>,
}

/// A line of a terminal's output as it is shown.
pub open spec fn ansi_line(source: Seq<char>) -> LineView {
    let scan = scanned(source, 0, blank_scan());
    LineView { text: scan.text, styles: spans_text(closed_spans(scan)) }
}

/// Spans with a style, one behind the other, within the text.
pub open spec fn orderly(spans: Seq<Span>, length: nat) -> bool {
    &&& forall|i: int|
        0 <= i < spans.len() ==> {
            &&& (#[trigger] spans[i]).start < spans[i].end <= length
            &&& spans[i].style.len() > 0
        }
    &&& forall|i: int, j: int|
        0 <= i < j < spans.len() ==> (#[trigger] spans[i]).end <= (#[trigger] spans[j]).start
}

/// Text that a line editor shows as it is.
pub open spec fn printable_text(text: Seq<char>) -> bool {
    forall|i: int| 0 <= i < text.len() ==> ' ' <= #[trigger] text[i] <= '~'
}

/// A style whose colours are ones that a setting may name.
pub open spec fn sound_style(style: StyleView) -> bool {
    &&& style.foreground matches Some(c) ==> config::color(c)
    &&& style.background matches Some(c) ==> config::color(c)
}

/// The text of such a style.
pub open spec fn sound_style_text(text: Seq<char>) -> bool {
    exists|style: StyleView| sound_style(style) && text == #[trigger] style_text(style)
}

proof fn lemma_number_is_a_color(n: nat)
    requires
        n <= 255,
    ensures
        config::color(number::decimal(n)),
{
    number::law_decimal_reads_back(n);
}

proof fn lemma_extended_color(values: Seq<nat>, i: int)
    ensures
        extended_color(values, i).0 matches Some(c) ==> config::color(c),
{
    if i + 1 < values.len() && values[i + 1] == 5 {
        if i + 2 < values.len() && values[i + 2] <= 255 {
            lemma_number_is_a_color(values[i + 2]);
        }
    } else if i + 1 < values.len() && values[i + 1] == 2 && i + 4 < values.len() {
        let c = rgb(values[i + 2], values[i + 3], values[i + 4]);
        assert(c.len() == 7);
        assert(c[0] == '#');
        assert forall|k: int| 0 <= k < c.skip(1).len() implies text::in_class(
            Class::HexDigit,
            #[trigger] c.skip(1)[k],
        ) by {}
    }
}

/// A change of style keeps the colours ones that a setting may name.
pub proof fn law_changed_style_is_sound(style: StyleView, values: Seq<nat>, i: int)
    requires
        sound_style(style),
    ensures
        sound_style(changed_from(style, values, i)),
    decreases values.len() - i,
{
    if 0 <= i < values.len() {
        lemma_extended_color(values, i);
        let color = extended_color(values, i);
        let value = values[i];
        if value == 38 {
            law_changed_style_is_sound(
                StyleView { foreground: color.0, ..style },
                values,
                behind(values, i, color.1),
            );
        } else if value == 48 {
            law_changed_style_is_sound(
                StyleView { background: color.0, ..style },
                values,
                behind(values, i, color.1),
            );
        } else {
            if 30 <= value <= 37 {
                lemma_number_is_a_color((value - 30) as nat);
            } else if 40 <= value <= 47 {
                lemma_number_is_a_color((value - 40) as nat);
            } else if 90 <= value <= 97 {
                lemma_number_is_a_color((value - 82) as nat);
            } else if 100 <= value <= 107 {
                lemma_number_is_a_color((value - 92) as nat);
            }
            law_changed_style_is_sound(simple_change(style, value), values, i + 1);
        }
    }
}

proof fn lemma_color_is_printable(c: Seq<char>)
    requires
        config::color(c),
    ensures
        printable_text(c),
{
    if number::unsigned_value(c, 255) is Some {
        let digits = number::unsigned_digits(c);
        assert forall|i: int| 0 <= i < c.len() implies ' ' <= #[trigger] c[i] <= '~' by {
            if c[0] == '+' {
                if i > 0 {
                    assert(digits[i - 1] == c[i]);
                    assert(text::in_class(Class::AsciiDigit, digits[i - 1]));
                }
            } else {
                assert(text::in_class(Class::AsciiDigit, digits[i]));
            }
        }
    } else {
        assert forall|i: int| 0 <= i < c.len() implies ' ' <= #[trigger] c[i] <= '~' by {
            if i > 0 {
                assert(c.skip(1)[i - 1] == c[i]);
                assert(text::in_class(Class::HexDigit, c.skip(1)[i - 1]));
            }
        }
    }
}

proof fn lemma_joined_is_printable(list: Seq<Seq<char>>, sep: Seq<char>)
    requires
        printable_text(sep),
        forall|i: int| 0 <= i < list.len() ==> printable_text(#[trigger] list[i]),
    ensures
        printable_text(text::join(list, sep)),
    decreases list.len(),
{
    if list.len() > 0 {
        assert(printable_text(list[list.len() - 1]));
        assert(printable_text(list[0]));
        if list.len() > 1 {
            assert forall|i: int| 0 <= i < list.drop_last().len() implies printable_text(
                #[trigger] list.drop_last()[i],
            ) by {
                assert(list.drop_last()[i] == list[i]);
            }
            lemma_joined_is_printable(list.drop_last(), sep);
        }
    }
}

proof fn lemma_style_is_printable(style: StyleView)
    requires
        sound_style(style),
    ensures
        printable_text(style_text(style)),
{
    reveal_strlit("fg=");
    reveal_strlit("bg=");
    reveal_strlit("bold");
    reveal_strlit("underline");
    reveal_strlit("standout");
    let parts = style_parts(style);
    if let Some(c) = style.foreground {
        lemma_color_is_printable(c);
    }
    if let Some(c) = style.background {
        lemma_color_is_printable(c);
    }
    assert forall|i: int| 0 <= i < parts.len() implies printable_text(#[trigger] parts[i]) by {
        let one = parts[i];
        assert(one == "bold"@ || one == "underline"@ || one == "standout"@ || (
        style.foreground is Some && one == "fg="@ + style.foreground->Some_0) || (
        style.background is Some && one == "bg="@ + style.background->Some_0));
    }
    lemma_joined_is_printable(parts, seq![',']);
}

spec fn sound_scan(scan: Scan) -> bool {
    &&& scan.text.len() <= MAX_PREVIEW_WIDTH
    &&& printable_text(scan.text)
    &&& orderly(scan.spans, scan.run_start)
    &&& scan.run_start <= scan.text.len()
    &&& sound_style(scan.style)
    &&& sound_style_text(scan.run_style)
    &&& sound_spans(scan.spans)
}

/// Spans with sound styles.
pub open spec fn sound_spans(spans: Seq<Span>) -> bool {
    forall|i: int| 0 <= i < spans.len() ==> sound_style_text((#[trigger] spans[i]).style)
}

proof fn lemma_restyled(scan: Scan, parameters: Seq<char>)
    requires
        sound_scan(scan),
    ensures
        sound_scan(restyled(scan, parameters)),
{
    let style = changed(scan.style, parameters);
    lemma_closed_spans(scan);
    law_changed_style_is_sound(scan.style, parameters_of(parameters), 0);
    assert(sound_style_text(style_text(style)));
}

proof fn lemma_scanned(s: Seq<char>, i: int, scan: Scan)
    requires
        sound_scan(scan),
    ensures
        sound_scan(scanned(s, i, scan)),
    decreases s.len() - i,
{
    if i < 0 || i >= s.len() || scan.text.len() >= MAX_PREVIEW_WIDTH {
    } else if s[i] != '\u{1b}' {
        lemma_scanned(s, i + 1, extended(scan, s[i]));
    } else if i + 1 < s.len() && s[i + 1] == '[' {
        let end = sequence_end(s, i + 2);
        text::lemma_span(s.skip(i + 2), Class::AsciiLetter, false);
        if end < s.len() {
            if s[end] == 'm' {
                lemma_restyled(scan, s.subrange(i + 2, end));
                lemma_scanned(s, end + 1, restyled(scan, s.subrange(i + 2, end)));
            } else {
                lemma_scanned(s, end + 1, scan);
            }
        } else {
            lemma_scanned(s, i + 2, scan);
        }
    } else if i + 1 < s.len() && s[i + 1] == ']' {
        let end = command_end(s, i + 2);
        if i < end <= s.len() {
            lemma_scanned(s, end, scan);
        }
    } else if i + 1 < s.len() {
        lemma_scanned(s, i + 2, scan);
    } else {
        lemma_scanned(s, i + 1, scan);
    }
}

proof fn lemma_closed_spans(scan: Scan)
    requires
        orderly(scan.spans, scan.run_start),
        scan.run_start <= scan.text.len(),
    ensures
        orderly(closed_spans(scan), scan.text.len()),
{
}

proof fn lemma_spans_are_printable(spans: Seq<Span>)
    requires
        sound_spans(spans),
    ensures
        printable_text(spans_text(spans)),
{
    let list = spans.map_values(|one: Span| span_text(one));
    assert forall|i: int| 0 <= i < list.len() implies printable_text(#[trigger] list[i]) by {
        let one = spans[i];
        let style = choose|style: StyleView|
            sound_style(style) && one.style == #[trigger] style_text(style);
        lemma_style_is_printable(style);
        lemma_decimal_is_printable(one.start);
        lemma_decimal_is_printable(one.end);
        assert(list[i] == span_text(one));
    }
    lemma_joined_is_printable(list, seq![';']);
}

proof fn lemma_decimal_is_printable(n: nat)
    ensures
        printable_text(number::decimal(n)),
{
    number::law_decimal_reads_back(n);
    assert forall|i: int| 0 <= i < number::decimal(n).len() implies ' ' <= #[trigger] number::decimal(
        n,
    )[i] <= '~' by {
        assert(text::in_class(Class::AsciiDigit, number::decimal(n)[i]));
    }
}

/// What is shown of a line is printable and bounded. Its styles are spans within
/// it, one behind the other, with colours that a setting may name, and as
/// printable as the line.
pub proof fn law_ansi_line(source: Seq<char>)
    ensures
        ({
            let scan = scanned(source, 0, blank_scan());
            &&& ansi_line(source).text == scan.text
            &&& ansi_line(source).styles == spans_text(closed_spans(scan))
            &&& scan.text.len() <= MAX_PREVIEW_WIDTH
            &&& printable_text(scan.text)
            &&& orderly(closed_spans(scan), scan.text.len())
            &&& sound_spans(closed_spans(scan))
            &&& printable_text(ansi_line(source).styles)
        }),
{
    let blank = blank_scan();
    assert(style_parts(plain_style()) =~= Seq::<Seq<char>>::empty());
    assert(style_text(plain_style()) =~= Seq::<char>::empty());
    assert(sound_style_text(blank.run_style));
    lemma_scanned(source, 0, blank);
    let scan = scanned(source, 0, blank);
    lemma_closed_spans(scan);
    assert(sound_spans(closed_spans(scan)));
    lemma_spans_are_printable(closed_spans(scan));
}

// ---------------------------------------------------------------------------
// Code
// ---------------------------------------------------------------------------

/// A line of a preview: what it shows, and how.
#[derive(Debug, PartialEq, Eq)]
pub struct CommandPreviewLine {
    pub text: String,
    pub styles: String,
}

impl DeepView for CommandPreviewLine {
    type V = LineView;

    open spec fn deep_view(&self) -> LineView {
        LineView { text: self.text@, styles: self.styles@ }
    }
}

struct Progress {
    text: Vec<char>,
    styles: Vec<char>,
    count: usize,
    spans: Ghost<Seq<Span>>,
    style: AnsiStyle,
    run_start: usize,
    run_style: Vec<char>,
}

impl Progress {
    spec fn scan(self) -> Scan {
        Scan {
            text: self.text@,
            spans: self.spans@,
            style: self.style.deep_view(),
            run_start: self.run_start as nat,
            run_style: self.run_style@,
        }
    }

    spec fn wf(self) -> bool {
        &&& self.styles@ == spans_text(self.spans@)
        &&& self.count == self.spans@.len()
        &&& self.text@.len() <= MAX_PREVIEW_WIDTH
        &&& self.run_start <= self.text@.len()
        &&& orderly(self.spans@, self.run_start as nat)
    }

    /// Closes the run that is open.
    fn push_style_span(&mut self)
        requires
            old(self).wf(),
        ensures
            final(self).scan() == (Scan {
                spans: closed_spans(old(self).scan()),
                ..old(self).scan()
            }),
            final(self).styles@ == spans_text(final(self).spans@),
            final(self).count == final(self).spans@.len(),
            final(self).text@ == old(self).text@,
    {
        if self.run_start < self.text.len() && self.run_style.len() > 0 {
            let ghost one = Span {
                start: self.run_start as nat,
                end: self.text@.len(),
                style: self.run_style@,
            };
            let mut part = decimal_chars(self.run_start as u64);
            part.push(':');
            extend(&mut part, decimal_chars(self.text.len() as u64).as_slice());
            part.push(':');
            extend(&mut part, self.run_style.as_slice());
            let ghost list = self.spans@.map_values(|s: Span| span_text(s));
            proof {
                assert(part@ =~= span_text(one));
                lemma_span_count(self.spans@, self.run_start as nat);
            }
            push_part(&mut self.styles, &mut self.count, part.as_slice(), ';', Ghost(list));
            proof {
                assert(list.push(span_text(one)) =~= self.spans@.push(one).map_values(
                    |s: Span| span_text(s),
                ));
                self.spans@ = self.spans@.push(one);
            }
        }
    }
}

/// There are no more spans than characters.
proof fn lemma_span_count(spans: Seq<Span>, length: nat)
    requires
        orderly(spans, length),
    ensures
        spans.len() <= length,
    decreases spans.len(),
{
    if spans.len() > 0 {
        let last = spans[spans.len() - 1];
        let rest = spans.drop_last();
        assert forall|i: int| 0 <= i < rest.len() implies {
            &&& (#[trigger] rest[i]).start < rest[i].end <= last.start
            &&& rest[i].style.len() > 0
        } by {
            assert(rest[i] == spans[i]);
        }
        assert forall|i: int, j: int| 0 <= i < j < rest.len() implies (#[trigger] rest[i]).end <= (
        #[trigger] rest[j]).start by {
            assert(rest[i] == spans[i] && rest[j] == spans[j]);
        }
        lemma_span_count(rest, last.start);
    }
}

fn find_command_end(s: &[char], from: usize) -> (end: usize)
    requires
        from <= s@.len(),
    ensures
        end == command_end(s@, from as int),
        from <= end <= s@.len(),
{
    let mut i: usize = from;
    while i < s.len()
        invariant
            from <= i <= s@.len(),
            command_end(s@, from as int) == command_end(s@, i as int),
        decreases s.len() - i,
    {
        if s[i] == '\u{7}' {
            return i + 1;
        }
        if s[i] == '\u{1b}' && s.len() - i > 1 && s[i + 1] == '\\' {
            return i + 2;
        }
        i += 1;
    }
    i
}

/// A line of a terminal's output as it is shown.
pub fn parse_ansi_preview_line(source: &str) -> (r: CommandPreviewLine)
    ensures
        r.deep_view() == ansi_line(source@),
{
    let all = chars_of(source);
    styled_line(all.as_slice())
}

/// A line of a terminal's output as it is shown, given its characters.
pub(crate) fn styled_line(source: &[char]) -> (r: CommandPreviewLine)
    ensures
        r.deep_view() == ansi_line(source@),
{
    let n: usize = source.len();
    let mut p = Progress {
        text: Vec::new(),
        styles: Vec::new(),
        count: 0,
        spans: Ghost(Seq::empty()),
        style: AnsiStyle::default(),
        run_start: 0,
        run_style: Vec::new(),
    };
    let mut i: usize = 0;
    proof {
        assert(p.text@ =~= Seq::<char>::empty());
        assert(p.run_style@ =~= Seq::<char>::empty());
        assert(Seq::<Span>::empty().map_values(|s: Span| span_text(s)) =~= Seq::<
            Seq<char>,
        >::empty());
        assert(p.styles@ =~= spans_text(p.spans@));
        assert(p.scan() == blank_scan());
    }
    while i < n && p.text.len() < MAX_PREVIEW_WIDTH
        invariant
            i <= n,
            n == source@.len(),
            p.wf(),
            scanned(source@, 0, blank_scan()) == scanned(source@, i as int, p.scan()),
        decreases n - i,
    {
        let c = source[i];
        let ghost before = p.scan();
        if c != '\u{1b}' {
            if c == '\t' {
                p.text.push(' ');
            } else if !Class::Control.admits(c) {
                if c <= '~' {
                    p.text.push(c);
                } else {
                    p.text.push('?');
                }
            }
            assert(p.scan() == extended(before, c));
            i += 1;
        } else if n - i > 1 && source[i + 1] == '[' {
            let end: usize = span_end(source, i + 2, Class::AsciiLetter, false);
            proof {
                text::lemma_span(source@.skip(i + 2), Class::AsciiLetter, false);
            }
            if end < n {
                if source[end] == 'm' {
                    let parameters = vstd::slice::slice_subrange(source, i + 2, end);
                    p.style.apply_sgr(parameters);
                    let next = p.style.zle();
                    if !same_chars(next.as_slice(), p.run_style.as_slice()) {
                        proof {
                            lemma_closed_spans(p.scan());
                        }
                        p.push_style_span();
                        p.run_start = p.text.len();
                        p.run_style = next;
                    }
                    assert(p.scan() == restyled(before, parameters@));
                }
                i = end + 1;
            } else {
                i = i + 2;
            }
        } else if n - i > 1 && source[i + 1] == ']' {
            i = find_command_end(source, i + 2);
        } else if n - i > 1 {
            i = i + 2;
        } else {
            i = i + 1;
        }
    }
    p.push_style_span();
    CommandPreviewLine { text: text_of(p.text.as_slice()), styles: text_of(p.styles.as_slice()) }
}

} // verus!
