//! Numbers, orders and what stands for a character.
use vstd::prelude::*;
use crate::engine::display;
use crate::integration;
use crate::laws::imports;
use crate::laws::plain;
use crate::laws::texts;
use crate::number;
use crate::order;
use crate::text;
use crate::commands::help;
use crate::config::Settings;
use crate::text::Class;

verus! {

/// A number is written in decimal digits that stand for it, without leading
/// zeros.
pub proof fn law_decimal_numbers(n: nat)
    ensures
        imports::digits_only(number::decimal(n)),
        imports::number_of(number::decimal(n)) == n,
        n > 0 ==> number::decimal(n)[0] != '0',
        n < 10 ==> number::decimal(n).len() == 1,
    decreases n,
{
    let s = number::decimal(n);
    if n < 10 {
        assert(s.drop_last() =~= Seq::empty());
        assert(imports::number_of(s.drop_last()) == 0);
        assert(plain::digit(s[0]));
    } else {
        let rest = number::decimal(n / 10);
        law_decimal_numbers(n / 10);
        assert(s.drop_last() =~= rest);
        assert forall|i: int| 0 <= i < s.len() implies plain::digit(#[trigger] s[i]) by {
            if i < rest.len() {
                assert(s[i] == rest[i]);
            }
        }
        assert(s[0] == rest[0]);
    }
}

/// Decimal digits are read as the number that they stand for, with a sign where
/// one is allowed, as far as it fits; nothing else is a number.
pub proof fn law_read_numbers(digits: Seq<char>, max: nat, s: Seq<char>, i: int)
    requires
        imports::digits_only(digits),
        0 <= i < s.len(),
        !plain::digit(s[i]),
        i == 0 ==> s[0] != '+' && s[0] != '-',
    ensures
        ({
            let n = imports::number_of(digits);
            &&& number::unsigned_value(digits, max) == if n <= max { Some(n) } else { None }
            &&& number::unsigned_value(seq!['+'] + digits, max) == if n <= max {
                Some(n)
            } else {
                None
            }
            &&& number::signed_value(digits) == if n <= i64::MAX { Some(n as int) } else { None }
            &&& number::signed_value(seq!['-'] + digits) == if n <= i64::MAX + 1 {
                Some(-(n as int))
            } else {
                None
            }
            &&& number::unsigned_value(s, max) is None
            &&& number::signed_value(s) is None
            &&& number::unsigned_value(seq!['-'] + digits, max) is None
            &&& number::unsigned_value(Seq::empty(), max) is None
        }),
{
    imports::lemma_number_of(digits);
    assert(plain::digit(digits[0]));
    assert forall|k: int| 0 <= k < digits.len() implies text::in_class(
        Class::AsciiDigit,
        #[trigger] digits[k],
    ) by {
        assert(plain::digit(digits[k]));
    }
    let plus = seq!['+'] + digits;
    assert(plus[0] == '+');
    assert(plus.drop_first() =~= digits);
    let minus = seq!['-'] + digits;
    assert(minus[0] == '-');
    assert(minus.drop_first() =~= digits);
    assert(!text::in_class(Class::AsciiDigit, minus[0]));
    if s[0] == '+' || s[0] == '-' {
        assert(s.drop_first()[i - 1] == s[i]);
        assert(!text::in_class(Class::AsciiDigit, s.drop_first()[i - 1]));
    }
    assert(!text::in_class(Class::AsciiDigit, s[i]));
    if s[0] != '+' && s[0] != '-' {
        assert(number::unsigned_digits(s) == s);
    }
    if s[0] == '-' {
        assert(number::unsigned_digits(s) == s);
        assert(!text::in_class(Class::AsciiDigit, s[0]));
    }
}

/// Of two runs of bytes that part, the one with the smaller byte comes first;
/// where one goes on from the other, the shorter one does.
pub proof fn law_order_of_bytes(both: Seq<u8>, x: u8, y: u8, a: Seq<u8>, b: Seq<u8>)
    requires
        x < y,
    ensures
        order::bytes_le(both + seq![x] + a, both + seq![y] + b),
        !order::bytes_le(both + seq![y] + b, both + seq![x] + a),
        order::bytes_le(both, both + a),
        a.len() > 0 ==> !order::bytes_le(both + a, both),
    decreases both.len(),
{
    let s = both + seq![x] + a;
    let t = both + seq![y] + b;
    let u = both + a;
    if both.len() == 0 {
        assert(s[0] == x && t[0] == y);
    } else {
        let rest = both.drop_first();
        law_order_of_bytes(rest, x, y, a, b);
        assert(s.drop_first() =~= rest + seq![x] + a);
        assert(t.drop_first() =~= rest + seq![y] + b);
        assert(u.drop_first() =~= rest + a);
        assert(s[0] == both[0] && t[0] == both[0] && u[0] == both[0]);
    }
}

/// In what a row shows, a tab, a line feed and a carriage return stand as a
/// backslash and a letter, any other control character as its number between
/// braces, and everything else as itself.
pub proof fn law_shown_characters(before: Seq<char>, c: char, high: nat, low: nat)
    requires
        high < 16,
        low < 16,
    ensures
        display::displayed(before.push('\t')) == display::displayed(before) + seq!['\\', 't'],
        display::displayed(before.push('\n')) == display::displayed(before) + seq!['\\', 'n'],
        display::displayed(before.push('\r')) == display::displayed(before) + seq!['\\', 'r'],
        (' ' <= c && c <= '~') || c >= '\u{a0}' ==> display::displayed(before.push(c))
            == display::displayed(before).push(c),
        c as nat == 16 * high + low && high > 0 && (c < ' ' || ('\u{7f}' <= c && c <= '\u{9f}'))
            ==> display::displayed(before.push(c)) == display::displayed(before) + seq![
            '\\',
            'u',
            '{',
            number::digit_char(high as int),
            number::digit_char(low as int),
            '}',
        ],
{
    assert(before.push('\t').drop_last() =~= before);
    assert(before.push('\n').drop_last() =~= before);
    assert(before.push('\r').drop_last() =~= before);
    assert(before.push(c).drop_last() =~= before);
    if c as nat == 16 * high + low && high > 0 && (c < ' ' || ('\u{7f}' <= c && c <= '\u{9f}')) {
        assert(c as nat / 16 == high && c as nat % 16 == low);
        assert(display::shown_control(c) =~= seq![
            '\\',
            'u',
            '{',
            number::digit_char(high as int),
            number::digit_char(low as int),
            '}',
        ]);
    }
}

/// Between the words of a description, spaces are as good as one.
pub proof fn law_spaces_collapse(s: Seq<char>, gap: Seq<char>, word: Seq<char>)
    requires
        s.len() > 0,
        plain::visible(s.last()),
        plain::spaces(gap),
        gap.len() > 0,
        word.len() > 0,
        forall|i: int| 0 <= i < word.len() ==> plain::visible(#[trigger] word[i]),
    ensures
        help::sanitize(s + gap + word) == help::sanitize(s + seq![' '] + word),
{
    texts::law_another_word(s, gap, word, Class::Whitespace);
    texts::law_another_word(s, seq![' '], word, Class::Whitespace);
}

/// A terminal shows an overstruck character once, a tab as a space, and nothing of
/// the sequences that set colours.
pub proof fn law_shown_in_a_terminal(before: Seq<char>, c: char, digits: Seq<char>)
    requires
        help::shown(before).escape == 0,
        plain::visible(c),
        forall|i: int| 0 <= i < digits.len() ==> plain::digit(#[trigger] digits[i]) || digits[i]
            == ';',
    ensures
        help::shown(before + seq![c]).text == help::shown(before).text.push(c),
        help::shown(before + seq![c, '\u{8}', c]) == help::shown(before + seq![c]),
        help::shown(before + seq!['_', '\u{8}', c]) == help::shown(before + seq![c]),
        help::shown(before + seq!['\t']).text == help::shown(before).text.push(' '),
        help::shown(before + (seq!['\u{1b}', '['] + digits + seq!['m'])) == help::shown(before),
{
    lemma_shown(before, c);
    lemma_shown(before, '\t');
    lemma_shown(before, '_');
    lemma_shown(before.push(c), '\u{8}');
    lemma_shown(before.push('_'), '\u{8}');
    lemma_shown(before.push(c).push('\u{8}'), c);
    lemma_shown(before.push('_').push('\u{8}'), c);
    let text = help::shown(before).text;
    assert(text.push(c).drop_last() =~= text);
    assert(text.push('_').drop_last() =~= text);
    assert(before + seq![c] =~= before.push(c));
    assert(before + seq!['\t'] =~= before.push('\t'));
    assert(before + seq![c, '\u{8}', c] =~= before.push(c).push('\u{8}').push(c));
    assert(before + seq!['_', '\u{8}', c] =~= before.push('_').push('\u{8}').push(c));
    lemma_shown(before, '\u{1b}');
    lemma_shown(before.push('\u{1b}'), '[');
    let opened = before.push('\u{1b}').push('[');
    lemma_digits(opened, digits);
    lemma_shown(opened + digits, 'm');
    assert(before + (seq!['\u{1b}', '['] + digits + seq!['m']) =~= (opened + digits).push('m'));
}

proof fn lemma_shown(before: Seq<char>, c: char)
    ensures
        help::shown(before.push(c)) == help::show(help::shown(before), c),
{
    assert(before.push(c).drop_last() =~= before);
}

proof fn lemma_digits(opened: Seq<char>, digits: Seq<char>)
    requires
        help::shown(opened).escape == 2,
        forall|i: int| 0 <= i < digits.len() ==> plain::digit(#[trigger] digits[i]) || digits[i]
            == ';',
    ensures
        help::shown(opened + digits) == help::shown(opened),
    decreases digits.len(),
{
    if digits.len() == 0 {
        assert(opened + digits =~= opened);
    } else {
        let rest = digits.drop_last();
        assert forall|i: int| 0 <= i < rest.len() implies plain::digit(#[trigger] rest[i])
            || rest[i] == ';' by {
            assert(rest[i] == digits[i]);
        }
        lemma_digits(opened, rest);
        let c = digits[digits.len() - 1];
        lemma_shown(opened + rest, c);
        assert((opened + rest).push(c) =~= opened + digits);
    }
}

/// A place in the script is filled with its value wherever it stands, and nothing
/// else of the script changes.
pub proof fn law_filled_in(before: Seq<char>, place: Seq<char>, value: Seq<char>, after: Seq<char>)
    requires
        place.len() > 0,
        place[0] == '_',
        plain::lacks(before, '_'),
        plain::lacks(after, '_'),
    ensures
        text::replace_all(before + place + after, place, value) == before + value + after,
        text::replace_all(before, place, value) == before,
{
    let s = before + place + after;
    let n = before.len() as int;
    assert(s.subrange(n, n + place.len()) =~= place);
    assert forall|i: int| 0 <= i < n implies !#[trigger] text::occurs_at(s, place, i) by {
        if text::occurs_at(s, place, i) {
            assert(s.subrange(i, i + place.len())[0] == s[i]);
            assert(s[i] == before[i]);
        }
    }
    texts::law_found_first(s, place, n);
    assert(s.take(n) =~= before);
    assert(s.skip(n + place.len()) =~= after);
    lemma_not_found(after, place);
    lemma_not_found(before, place);
    assert(text::replace_all(after, place, value) == after);
    assert(text::replace_all(s, place, value) == s.take(n) + value + text::replace_all(
        s.skip(n + place.len()),
        place,
        value,
    ));
}

proof fn lemma_not_found(s: Seq<char>, place: Seq<char>)
    requires
        place.len() > 0,
        place[0] == '_',
        plain::lacks(s, '_'),
    ensures
        text::find_text(s, place) is None,
{
    text::lemma_find_from(s, place, 0);
    if text::find_text(s, place) is Some {
        let n = text::find_text(s, place)->Some_0;
        assert(s.subrange(n, n + place.len())[0] == s[n]);
    }
}

/// Each setting has its place in the script.
pub proof fn law_places_in_the_script(s: Settings, sequence: Seq<char>)
    ensures
        ({
            let list = integration::fillings(s, sequence);
            &&& list.contains(("__ASTER_COMPLETION_KEY__"@, sequence))
            &&& list.contains(("__ASTER_UI_MENU_WIDTH__"@, number::decimal(s.ui.menu_width as nat)))
            &&& list.contains(
                ("__ASTER_UI_MAX_VISIBLE__"@, number::decimal(s.ui.max_visible as nat)),
            )
            &&& list.contains(
                (
                    "__ASTER_COMPLETION_MAX_CANDIDATES__"@,
                    number::decimal(s.completion.max_candidates as nat),
                ),
            )
            &&& list.contains(
                ("__ASTER_UI_PROMPT_OFFSET__"@, number::decimal(s.ui.prompt_offset as nat)),
            )
            &&& list.contains(("__ASTER_UI_BORDER__"@, s.ui.border@))
            &&& list.contains(("__ASTER_UI_ACCENT__"@, s.ui.accent@))
            &&& list.contains(("__ASTER_UI_TEXT__"@, s.ui.text@))
            &&& list.contains(("__ASTER_UI_MUTED__"@, s.ui.muted@))
            &&& list.contains(("__ASTER_UI_GHOST__"@, s.ui.ghost_text@))
            &&& list.contains(("__ASTER_UI_SELECTED_BACKGROUND__"@, s.ui.selected_background@))
            &&& list.contains(("__ASTER_UI_SELECTED_TEXT__"@, s.ui.selected_text@))
            &&& list.contains(("__ASTER_UI_SELECTED_SOURCE__"@, s.ui.selected_source@))
        }),
{
    let list = integration::fillings(s, sequence);
    assert(list[0].0 == "__ASTER_COMPLETION_KEY__"@ && list[0].1 == sequence);
    assert(list[2].0 == "__ASTER_UI_MENU_WIDTH__"@);
    assert(list[3].0 == "__ASTER_UI_MAX_VISIBLE__"@);
    assert(list[4].0 == "__ASTER_COMPLETION_MAX_CANDIDATES__"@);
    assert(list[5].0 == "__ASTER_UI_PROMPT_OFFSET__"@);
    assert(list[6].0 == "__ASTER_UI_BORDER__"@);
    assert(list[7].0 == "__ASTER_UI_ACCENT__"@);
    assert(list[8].0 == "__ASTER_UI_TEXT__"@);
    assert(list[9].0 == "__ASTER_UI_MUTED__"@);
    assert(list[10].0 == "__ASTER_UI_GHOST__"@);
    assert(list[11].0 == "__ASTER_UI_SELECTED_BACKGROUND__"@);
    assert(list[12].0 == "__ASTER_UI_SELECTED_TEXT__"@);
    assert(list[13].0 == "__ASTER_UI_SELECTED_SOURCE__"@);
}

/// The completion key is named to the user with a capital letter.
pub proof fn law_name_of_the_key(c: char)
    requires
        'a' <= c && c <= 'z',
    ensures
        integration::key_label(seq!['c', 't', 'r', 'l', '-', c]) == seq![
            'C',
            't',
            'r',
            'l',
            '-',
            (c as u32 - 'a' as u32 + 'A' as u32) as char,
        ],
        integration::key_label("ctrl-space"@) == "Ctrl-Space"@,
{
    reveal_strlit("ctrl-space");
    reveal_strlit("ctrl-");
    reveal_strlit("Ctrl-");
    let key = seq!['c', 't', 'r', 'l', '-', c];
    assert(key.len() != "ctrl-space"@.len());
    assert(key.skip(5) =~= seq![c]);
    let big = text::upper(seq![c]);
    assert(big[0] == text::upper_char(c));
    assert(integration::key_label(key) =~= seq![
        'C',
        't',
        'r',
        'l',
        '-',
        (c as u32 - 'a' as u32 + 'A' as u32) as char,
    ]);
}

} // verus!
