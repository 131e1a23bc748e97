//! How the colours of a command's output are kept.
use vstd::prelude::*;
use crate::laws::imports;
use crate::laws::plain;
use crate::laws::texts;
use crate::number;
use crate::preview::ansi;
use crate::text;
use crate::preview::ansi::{LineView, Scan, Span, StyleView};
use crate::text::Class;

verus! {

proof fn lemma_plain_part(s: Seq<char>, i: int, part: Seq<char>, scan: Scan)
    requires
        0 <= i,
        i + part.len() <= s.len(),
        s.subrange(i, i + part.len()) == part,
        plain::printed(part),
        scan.text.len() + part.len() <= 160,
    ensures
        ansi::scanned(s, i, scan) == ansi::scanned(
            s,
            i + part.len(),
            Scan { text: scan.text + part, ..scan },
        ),
    decreases part.len(),
{
    if part.len() == 0 {
        assert(scan.text + part =~= scan.text);
    } else {
        assert(s.subrange(i, i + part.len())[0] == s[i]);
        assert(plain::visible(part[0]) || part[0] == ' ');
        let next = Scan { text: scan.text.push(s[i]), ..scan };
        let rest = part.skip(1);
        assert(s.subrange(i + 1, i + part.len()) =~= rest);
        assert forall|k: int| 0 <= k < rest.len() implies plain::visible(#[trigger] rest[k])
            || rest[k] == ' ' by {
            assert(rest[k] == part[k + 1]);
        }
        assert(ansi::scanned(s, i, scan) == ansi::scanned(s, i + 1, next));
        lemma_plain_part(s, i + 1, rest, next);
        assert(scan.text.push(s[i]) + rest =~= scan.text + part);
    }
}

/// A line without control characters and colours is shown as it is.
pub proof fn law_plain_line(s: Seq<char>)
    requires
        plain::printed(s),
        s.len() <= 160,
    ensures
        ansi::ansi_line(s) == (LineView { text: s, styles: Seq::empty() }),
{
    let blank = ansi::blank_scan();
    assert(s.subrange(0, s.len() as int) =~= s);
    lemma_plain_part(s, 0, s, blank);
    assert(blank.text + s =~= s);
    let none = Seq::<Span>::empty();
    let scan = Scan { text: s, ..blank };
    assert(ansi::scanned(s, 0, blank) == scan);
    assert(ansi::closed_spans(scan) == none);
    assert(none.map_values(|one: Span| ansi::span_text(one)) =~= Seq::<Seq<char>>::empty());
}

/// The parameters of a colour: digits and semicolons.
pub open spec fn parameters(s: Seq<char>) -> bool {
    forall|i: int| 0 <= i < s.len() ==> plain::digit(#[trigger] s[i]) || s[i] == ';'
}

proof fn lemma_escape(s: Seq<char>, i: int, code: Seq<char>, end: char, scan: Scan)
    requires
        0 <= i,
        i + code.len() + 3 <= s.len(),
        s[i] == '\u{1b}',
        s[i + 1] == '[',
        s.subrange(i + 2, i + 2 + code.len()) == code,
        s[i + 2 + code.len()] == end,
        parameters(code),
        plain::letter(end),
        scan.text.len() < 160,
    ensures
        ansi::scanned(s, i, scan) == ansi::scanned(
            s,
            i + code.len() + 3,
            if end == 'm' { ansi::restyled(scan, code) } else { scan },
        ),
{
    let from = s.skip(i + 2);
    assert forall|k: int| 0 <= k < code.len() implies text::in_class(
        Class::AsciiLetter,
        #[trigger] from[k],
    ) == false by {
        assert(s.subrange(i + 2, i + 2 + code.len())[k] == from[k]);
        assert(plain::digit(code[k]) || code[k] == ';');
    }
    assert(from[code.len() as int] == end);
    text::lemma_span_is(from, Class::AsciiLetter, false, code.len());
}

/// A part of a line in some colours, between a sequence that sets them and one
/// that takes them back, is shown without the sequences; its position, its end and
/// its look are told beside it.
pub proof fn law_colored_part(before: Seq<char>, code: Seq<char>, part: Seq<char>, after: Seq<char>)
    requires
        plain::printed(before),
        plain::printed(part),
        plain::printed(after),
        part.len() > 0,
        before.len() + part.len() + after.len() < 160,
        parameters(code),
        ansi::style_text(ansi::changed(ansi::plain_style(), code)).len() > 0,
    ensures
        ansi::ansi_line(
            before + (seq!['\u{1b}', '['] + code + seq!['m']) + part + seq![
                '\u{1b}',
                '[',
                '0',
                'm',
            ] + after,
        ) == (LineView {
            text: before + part + after,
            styles: number::decimal(before.len()) + seq![':'] + number::decimal(
                before.len() + part.len(),
            ) + seq![':'] + ansi::style_text(ansi::changed(ansi::plain_style(), code)),
        }),
{
    let start = seq!['\u{1b}', '['] + code + seq!['m'];
    let reset = seq!['\u{1b}', '[', '0', 'm'];
    let s = before + start + part + reset + after;
    let style = ansi::changed(ansi::plain_style(), code);
    let look = ansi::style_text(style);
    let blank = ansi::blank_scan();
    let opened = Scan {
        text: before,
        spans: Seq::empty(),
        style,
        run_start: before.len(),
        run_style: look,
    };
    let b = before.len() + start.len() as int;
    assert(ansi::scanned(s, 0, blank) == ansi::scanned(s, b, opened)) by {
        assert(s.take(before.len() as int + code.len() + 3) =~= before + start);
        lemma_opening(s, before, code);
    }
    let span = Span { start: before.len(), end: (before + part).len(), style: look };
    let closed = Scan {
        text: before + part,
        spans: seq![span],
        style: ansi::plain_style(),
        run_start: (before + part).len(),
        run_style: Seq::empty(),
    };
    let d = b + part.len() + 4;
    assert(ansi::scanned(s, b, opened) == ansi::scanned(s, d, closed)) by {
        assert(s.subrange(b, b + part.len()) =~= part);
        assert(s.subrange(b + part.len(), d) =~= reset);
        lemma_closing(s, b, part, opened);
    }
    let done = Scan { text: before + part + after, ..closed };
    assert(ansi::scanned(s, d, closed) == done) by {
        assert(s.subrange(d, d + after.len()) =~= after);
        lemma_plain_part(s, d, after, closed);
        assert(s.len() == d + after.len());
    }
    assert(ansi::closed_spans(done) == seq![span]);
    let shown = seq![span].map_values(|one: Span| ansi::span_text(one));
    assert(shown =~= seq![ansi::span_text(span)]);
}

proof fn lemma_opening(s: Seq<char>, before: Seq<char>, code: Seq<char>)
    requires
        plain::printed(before),
        parameters(code),
        before.len() < 160,
        before.len() + code.len() + 3 <= s.len(),
        s.take(before.len() as int + code.len() + 3) == before + (seq!['\u{1b}', '['] + code + seq!['m']),
        ansi::style_text(ansi::changed(ansi::plain_style(), code)).len() > 0,
    ensures
        ansi::scanned(s, 0, ansi::blank_scan()) == ansi::scanned(
            s,
            before.len() as int + code.len() + 3,
            Scan {
                text: before,
                spans: Seq::empty(),
                style: ansi::changed(ansi::plain_style(), code),
                run_start: before.len(),
                run_style: ansi::style_text(ansi::changed(ansi::plain_style(), code)),
            },
        ),
{
    let blank = ansi::blank_scan();
    let a = before.len() as int;
    let head = s.take(a + code.len() + 3);
    assert(s.subrange(0, a) =~= head.take(a));
    assert(head.take(a) =~= before);
    lemma_plain_part(s, 0, before, blank);
    assert(blank.text + before =~= before);
    let first = Scan { text: before, ..blank };
    assert(s[a] == head[a] && s[a + 1] == head[a + 1]);
    assert(s.subrange(a + 2, a + 2 + code.len()) =~= code) by {
        assert forall|i: int| 0 <= i < code.len() implies s[a + 2 + i] == code[i] by {
            assert(s[a + 2 + i] == head[a + 2 + i]);
        }
    }
    assert(s[a + 2 + code.len()] == head[a + 2 + code.len()]);
    lemma_escape(s, a, code, 'm', first);
    assert(ansi::closed_spans(first) == Seq::<Span>::empty());
}

proof fn lemma_closing(s: Seq<char>, b: int, part: Seq<char>, opened: Scan)
    requires
        0 <= b,
        plain::printed(part),
        part.len() > 0,
        opened.text.len() + part.len() < 160,
        opened.run_start == opened.text.len(),
        opened.run_style.len() > 0,
        b + part.len() + 4 <= s.len(),
        s.subrange(b, b + part.len()) == part,
        s.subrange(b + part.len(), b + part.len() + 4) == seq!['\u{1b}', '[', '0', 'm'],
        opened.spans.len() == 0,
    ensures
        ansi::scanned(s, b, opened) == ansi::scanned(
            s,
            b + part.len() + 4,
            Scan {
                text: opened.text + part,
                spans: seq![
                    Span {
                        start: opened.text.len(),
                        end: (opened.text + part).len(),
                        style: opened.run_style,
                    },
                ],
                style: ansi::plain_style(),
                run_start: (opened.text + part).len(),
                run_style: Seq::empty(),
            },
        ),
{
    let c = b + part.len();
    let zero = seq!['0'];
    let reset = s.subrange(c, c + 4);
    lemma_plain_part(s, b, part, opened);
    let filled = Scan { text: opened.text + part, ..opened };
    assert(s[c] == reset[0] && s[c + 1] == reset[1] && s[c + 2] == reset[2] && s[c + 3]
        == reset[3]);
    assert(s.subrange(c + 2, c + 3) =~= zero);
    assert(parameters(zero)) by {
        assert(plain::digit(zero[0]));
    }
    lemma_escape(s, c, zero, 'm', filled);
    lemma_reset(filled.style);
    lemma_plain_look();
    let span = Span {
        start: opened.text.len(),
        end: (opened.text + part).len(),
        style: opened.run_style,
    };
    assert(opened.spans.push(span) =~= seq![span]);
}

proof fn lemma_plain_look()
    ensures
        ansi::style_text(ansi::plain_style()) == Seq::<char>::empty(),
{
    assert(ansi::style_parts(ansi::plain_style()) =~= Seq::<Seq<char>>::empty());
}

proof fn lemma_reset(style: StyleView)
    ensures
        ansi::changed(style, seq!['0']) == ansi::plain_style(),
{
    let zero = seq!['0'];
    assert(imports::number_of(zero.drop_last()) == 0);
    assert(imports::number_of(zero) == 0);
    lemma_one_parameter(zero);
    lemma_one_change(style, 0);
}

/// A single number is a single parameter.
proof fn lemma_one_parameter(digits: Seq<char>)
    requires
        imports::digits_only(digits),
        imports::number_of(digits) <= 65535,
    ensures
        ansi::parameters_of(digits) == seq![imports::number_of(digits)],
{
    assert forall|i: int| 0 <= i < digits.len() implies #[trigger] digits[i] != ';'
        && text::in_class(Class::AsciiDigit, digits[i]) by {
        assert(plain::digit(digits[i]));
    }
    texts::law_pieces(digits, ';', Seq::empty());
    imports::lemma_number_of(digits);
    assert(plain::digit(digits[0]));
    assert(ansi::parameters_of(digits) =~= seq![imports::number_of(digits)]);
}

proof fn lemma_one_change(style: StyleView, code: nat)
    requires
        code != 38,
        code != 48,
    ensures
        ansi::changed_from(style, seq![code], 0) == ansi::simple_change(style, code),
{
    let one = seq![code];
    assert(ansi::changed_from(ansi::simple_change(style, code), one, 1) == ansi::simple_change(
        style,
        code,
    ));
}

/// What the common codes do to a look: they set and take back one thing each.
pub proof fn law_codes(style: StyleView, digits: Seq<char>)
    requires
        imports::digits_only(digits),
        imports::number_of(digits) <= 110,
        imports::number_of(digits) != 38,
        imports::number_of(digits) != 48,
    ensures
        ({
            let n = imports::number_of(digits);
            let after = ansi::changed(style, digits);
            &&& n == 0 ==> after.foreground is None && after.background is None && !after.bold
                && !after.underline && !after.standout
            &&& n == 1 ==> after == (StyleView { bold: true, ..style })
            &&& n == 4 ==> after == (StyleView { underline: true, ..style })
            &&& n == 7 ==> after == (StyleView { standout: true, ..style })
            &&& n == 22 ==> after == (StyleView { bold: false, ..style })
            &&& n == 24 ==> after == (StyleView { underline: false, ..style })
            &&& n == 27 ==> after == (StyleView { standout: false, ..style })
            &&& 30 <= n <= 37 ==> after == (StyleView {
                foreground: Some(number::decimal((n - 30) as nat)),
                ..style
            })
            &&& 90 <= n <= 97 ==> after == (StyleView {
                foreground: Some(number::decimal((n - 90 + 8) as nat)),
                ..style
            })
            &&& 40 <= n <= 47 ==> after == (StyleView {
                background: Some(number::decimal((n - 40) as nat)),
                ..style
            })
            &&& 100 <= n <= 107 ==> after == (StyleView {
                background: Some(number::decimal((n - 100 + 8) as nat)),
                ..style
            })
            &&& n == 39 ==> after == (StyleView { foreground: None, ..style })
            &&& n == 49 ==> after == (StyleView { background: None, ..style })
        }),
{
    lemma_one_parameter(digits);
    lemma_one_change(style, imports::number_of(digits));
}

/// Behind 38 or 48, a 5 and a number up to 255 name a colour of the palette, and
/// a 2 and three numbers mix one.
pub proof fn law_extended_colors(style: StyleView, n: nat, r: nat, g: nat, b: nat)
    requires
        n <= 255,
        r <= 255,
        g <= 255,
        b <= 255,
    ensures
        ansi::changed_from(style, seq![38nat, 5, n], 0) == (StyleView {
            foreground: Some(number::decimal(n)),
            ..style
        }),
        ansi::changed_from(style, seq![48nat, 5, n], 0) == (StyleView {
            background: Some(number::decimal(n)),
            ..style
        }),
        ansi::changed_from(style, seq![38nat, 2, r, g, b], 0) == (StyleView {
            foreground: Some(
                seq!['#'] + number::hex_pair(r) + number::hex_pair(g) + number::hex_pair(b),
            ),
            ..style
        }),
        ansi::changed_from(style, seq![48nat, 2, r, g, b], 0) == (StyleView {
            background: Some(
                seq!['#'] + number::hex_pair(r) + number::hex_pair(g) + number::hex_pair(b),
            ),
            ..style
        }),
{
    lemma_color(style, seq![38nat, 5, n]);
    lemma_color(style, seq![48nat, 5, n]);
    lemma_color(style, seq![38nat, 2, r, g, b]);
    lemma_color(style, seq![48nat, 2, r, g, b]);
}

proof fn lemma_color(style: StyleView, values: Seq<nat>)
    requires
        values.len() > 0,
        values[0] == 38 || values[0] == 48,
        values.len() == ansi::extended_color(values, 0).1,
    ensures
        values[0] == 38 ==> ansi::changed_from(style, values, 0) == (StyleView {
            foreground: ansi::extended_color(values, 0).0,
            ..style
        }),
        values[0] == 48 ==> ansi::changed_from(style, values, 0) == (StyleView {
            background: ansi::extended_color(values, 0).0,
            ..style
        }),
{
    let n = values.len() as int;
    let color = ansi::extended_color(values, 0).0;
    assert(ansi::behind(values, 0, n) == n);
    let front = StyleView { foreground: color, ..style };
    let back = StyleView { background: color, ..style };
    assert(ansi::changed_from(front, values, n) == front);
    assert(ansi::changed_from(back, values, n) == back);
}

/// A look is told by its colours and marks, with commas between them.
pub proof fn law_words_of_a_look(color: Seq<char>)
    ensures
        ansi::style_text(StyleView { foreground: Some(color), ..ansi::plain_style() }) == "fg="@
            + color,
        ansi::style_text(StyleView { background: Some(color), ..ansi::plain_style() }) == "bg="@
            + color,
        ansi::style_text(StyleView { bold: true, ..ansi::plain_style() }) == "bold"@,
        ansi::style_text(StyleView { underline: true, ..ansi::plain_style() }) == "underline"@,
        ansi::style_text(StyleView { standout: true, ..ansi::plain_style() }) == "standout"@,
        ansi::style_text(
            StyleView { foreground: Some(color), bold: true, ..ansi::plain_style() },
        ) == "fg="@ + color + seq![','] + "bold"@,
{
    let none = ansi::plain_style();
    assert(ansi::style_parts(StyleView { foreground: Some(color), ..none }) =~= seq![
        "fg="@ + color,
    ]);
    assert(ansi::style_parts(StyleView { background: Some(color), ..none }) =~= seq![
        "bg="@ + color,
    ]);
    assert(ansi::style_parts(StyleView { bold: true, ..none }) =~= seq!["bold"@]);
    assert(ansi::style_parts(StyleView { underline: true, ..none }) =~= seq!["underline"@]);
    assert(ansi::style_parts(StyleView { standout: true, ..none }) =~= seq!["standout"@]);
    let two = seq!["fg="@ + color, "bold"@];
    assert(ansi::style_parts(StyleView { foreground: Some(color), bold: true, ..none }) =~= two);
    assert(two.drop_last() =~= seq!["fg="@ + color]);
    assert(text::join(two.drop_last(), seq![',']) == "fg="@ + color);
}

} // verus!
