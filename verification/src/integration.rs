//! The shell's side: a script for the line editor, with the user's settings.
pub mod template;
use vstd::prelude::*;
use crate::config;
use crate::number;
use crate::text;
use crate::config::{completion_key_sequence, ConfigError, Settings};
use crate::integration::template::template_chars;
use crate::number::decimal_chars;
use crate::text::{chars_of, extend, from_index, replaced, same_text, text_of, uppered};

verus! {

/// A completion key as it is shown to the user.
pub open spec fn key_label(key: Seq<char>) -> Seq<char> {
    if key == "ctrl-space"@ {
        "Ctrl-Space"@
    } else {
        "Ctrl-"@ + text::upper(key.skip("ctrl-"@.len() as int))
    }
}

/// The placeholders and what stands in their place, in the order in which they
/// are filled in.
pub open spec fn fillings(s: Settings, sequence: Seq<char>) -> Seq<
    (Seq<char>, Seq<char>),
> {
    seq![
        ("__ASTER_COMPLETION_KEY__"@, sequence),
        ("__ASTER_COMPLETION_KEY_LABEL__"@, key_label(s.completion.key@)),
        ("__ASTER_UI_MENU_WIDTH__"@, number::decimal(s.ui.menu_width as nat)),
        ("__ASTER_UI_MAX_VISIBLE__"@, number::decimal(s.ui.max_visible as nat)),
        (
            "__ASTER_COMPLETION_MAX_CANDIDATES__"@,
            number::decimal(s.completion.max_candidates as nat),
        ),
        ("__ASTER_UI_PROMPT_OFFSET__"@, number::decimal(s.ui.prompt_offset as nat)),
        ("__ASTER_UI_BORDER__"@, s.ui.border@),
        ("__ASTER_UI_ACCENT__"@, s.ui.accent@),
        ("__ASTER_UI_TEXT__"@, s.ui.text@),
        ("__ASTER_UI_MUTED__"@, s.ui.muted@),
        ("__ASTER_UI_GHOST__"@, s.ui.ghost_text@),
        ("__ASTER_UI_SELECTED_BACKGROUND__"@, s.ui.selected_background@),
        ("__ASTER_UI_SELECTED_TEXT__"@, s.ui.selected_text@),
        ("__ASTER_UI_SELECTED_SOURCE__"@, s.ui.selected_source@),
    ]
}

/// A text with its placeholders filled in, one after the other.
pub open spec fn filled(text: Seq<char>, list: Seq<(Seq<char>, Seq<char>)>) -> Seq<char>
    decreases list.len(),
{
    if list.len() == 0 {
        text
    } else {
        text::replace_all(
            filled(text, list.drop_last()),
            list.last().0,
            list.last().1,
        )
    }
}

/// The script for given settings.
pub open spec fn script(s: Settings, sequence: Seq<char>) -> Seq<char> {
    filled(template::template(), fillings(s, sequence))
}

/// Fills in the next placeholder.
fn fill(
    text: &mut Vec<char>,
    Ghost(done): Ghost<Seq<(Seq<char>, Seq<char>)>>,
    name: &str,
    value: &[char],
)
    requires
        name@.len() > 0,
        old(text)@ == filled(template::template(), done),
    ensures
        final(text)@ == filled(template::template(), done.push((name@, value@))),
{
    let placeholder = chars_of(name);
    let next = replaced(text.as_slice(), placeholder.as_slice(), value);
    assert(done.push((name@, value@)).drop_last() =~= done);
    *text = next;
}

fn label_of(key: &str) -> (r: Vec<char>)
    requires
        text::starts_with(key@, "ctrl-"@),
    ensures
        r@ == key_label(key@),
{
    if same_text(key, "ctrl-space") {
        return chars_of("Ctrl-Space");
    }
    proof {
        reveal_strlit("ctrl-");
    }
    let all = chars_of(key);
    let mut label = chars_of("Ctrl-");
    let rest = uppered(from_index(all.as_slice(), 5));
    extend(&mut label, rest.as_slice());
    label
}

/// The script for given settings; a completion key that cannot be bound is
/// refused.
pub fn zsh_integration(settings: &Settings) -> (r: Result<String, ConfigError>)
    ensures
        match (r, config::key_sequence(settings.completion.key@)) {
            (Ok(text), Ok(sequence)) => text@ == script(*settings, sequence),
            (Err(e), Err(problem)) => e@ == problem,
            _ => false,
        },
{
    let sequence = match completion_key_sequence(settings.completion.key.as_str()) {
        Ok(sequence) => sequence,
        Err(e) => return Err(e),
    };
    let ghost list = fillings(*settings, sequence@);
    let ui = &settings.ui;
    let mut text = template_chars();
    proof {
        reveal_strlit("ctrl-");
        reveal_strlit("ctrl-space");
        assert("ctrl-space"@.take(5) =~= "ctrl-"@);
        reveal_strlit("__ASTER_COMPLETION_KEY__");
        reveal_strlit("__ASTER_COMPLETION_KEY_LABEL__");
        reveal_strlit("__ASTER_UI_MENU_WIDTH__");
        reveal_strlit("__ASTER_UI_MAX_VISIBLE__");
        reveal_strlit("__ASTER_COMPLETION_MAX_CANDIDATES__");
        reveal_strlit("__ASTER_UI_PROMPT_OFFSET__");
        reveal_strlit("__ASTER_UI_BORDER__");
        reveal_strlit("__ASTER_UI_ACCENT__");
        reveal_strlit("__ASTER_UI_TEXT__");
        reveal_strlit("__ASTER_UI_MUTED__");
        reveal_strlit("__ASTER_UI_GHOST__");
        reveal_strlit("__ASTER_UI_SELECTED_BACKGROUND__");
        reveal_strlit("__ASTER_UI_SELECTED_TEXT__");
        reveal_strlit("__ASTER_UI_SELECTED_SOURCE__");
    }
    assert(list.take(0) =~= Seq::empty());
    let value = chars_of(sequence.as_str());
    fill(&mut text, Ghost(list.take(0)), "__ASTER_COMPLETION_KEY__", value.as_slice());
    assert(list.take(1) =~= list.take(0).push(list[0]));
    let value = label_of(settings.completion.key.as_str());
    fill(&mut text, Ghost(list.take(1)), "__ASTER_COMPLETION_KEY_LABEL__", value.as_slice());
    assert(list.take(2) =~= list.take(1).push(list[1]));
    let value = decimal_chars(ui.menu_width as u64);
    fill(&mut text, Ghost(list.take(2)), "__ASTER_UI_MENU_WIDTH__", value.as_slice());
    assert(list.take(3) =~= list.take(2).push(list[2]));
    let value = decimal_chars(ui.max_visible as u64);
    fill(&mut text, Ghost(list.take(3)), "__ASTER_UI_MAX_VISIBLE__", value.as_slice());
    assert(list.take(4) =~= list.take(3).push(list[3]));
    let value = decimal_chars(settings.completion.max_candidates as u64);
    fill(&mut text, Ghost(list.take(4)), "__ASTER_COMPLETION_MAX_CANDIDATES__", value.as_slice());
    assert(list.take(5) =~= list.take(4).push(list[4]));
    let value = decimal_chars(ui.prompt_offset as u64);
    fill(&mut text, Ghost(list.take(5)), "__ASTER_UI_PROMPT_OFFSET__", value.as_slice());
    assert(list.take(6) =~= list.take(5).push(list[5]));
    let value = chars_of(ui.border.as_str());
    fill(&mut text, Ghost(list.take(6)), "__ASTER_UI_BORDER__", value.as_slice());
    assert(list.take(7) =~= list.take(6).push(list[6]));
    let value = chars_of(ui.accent.as_str());
    fill(&mut text, Ghost(list.take(7)), "__ASTER_UI_ACCENT__", value.as_slice());
    assert(list.take(8) =~= list.take(7).push(list[7]));
    let value = chars_of(ui.text.as_str());
    fill(&mut text, Ghost(list.take(8)), "__ASTER_UI_TEXT__", value.as_slice());
    assert(list.take(9) =~= list.take(8).push(list[8]));
    let value = chars_of(ui.muted.as_str());
    fill(&mut text, Ghost(list.take(9)), "__ASTER_UI_MUTED__", value.as_slice());
    assert(list.take(10) =~= list.take(9).push(list[9]));
    let value = chars_of(ui.ghost_text.as_str());
    fill(&mut text, Ghost(list.take(10)), "__ASTER_UI_GHOST__", value.as_slice());
    assert(list.take(11) =~= list.take(10).push(list[10]));
    let value = chars_of(ui.selected_background.as_str());
    fill(&mut text, Ghost(list.take(11)), "__ASTER_UI_SELECTED_BACKGROUND__", value.as_slice());
    assert(list.take(12) =~= list.take(11).push(list[11]));
    let value = chars_of(ui.selected_text.as_str());
    fill(&mut text, Ghost(list.take(12)), "__ASTER_UI_SELECTED_TEXT__", value.as_slice());
    assert(list.take(13) =~= list.take(12).push(list[12]));
    let value = chars_of(ui.selected_source.as_str());
    fill(&mut text, Ghost(list.take(13)), "__ASTER_UI_SELECTED_SOURCE__", value.as_slice());
    assert(list.take(14) =~= list.take(13).push(list[13]));
    assert(list.take(14) =~= list);
    Ok(text_of(text.as_slice()))
}

} // verus!
