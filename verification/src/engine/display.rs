//! The texts that a row of the menu shows.
use vstd::prelude::*;
use crate::number;
use crate::text;
use crate::number::{decimal_chars, hex_chars};
use crate::text::{chars_of, push_all, push_str, text_of, Class};

verus! {

/// How a control character is shown.
pub open spec fn shown_control(c: char) -> Seq<char> {
    if c == '\t' {
        seq!['\\', 't']
    } else if c == '\r' {
        seq!['\\', 'r']
    } else if c == '\n' {
        seq!['\\', 'n']
    } else {
        seq!['\\', 'u', '{'] + hex_number(c as nat) + seq!['}']
    }
}

/// A number under 256 in hexadecimal.
pub open spec fn hex_number(n: nat) -> Seq<char> {
    if n < 16 {
        number::hex_pair(n).skip(1)
    } else {
        number::hex_pair(n)
    }
}

/// A text with its control characters shown as escapes.
pub open spec fn displayed(s: Seq<char>) -> Seq<char>
    decreases s.len(),
{
    if s.len() == 0 {
        s
    } else if text::control(s.last()) {
        displayed(s.drop_last()) + shown_control(s.last())
    } else {
        displayed(s.drop_last()).push(s.last())
    }
}

/// A displayed text holds no control character.
pub proof fn law_display_has_no_controls(s: Seq<char>)
    ensures
        !text::some_in(displayed(s), Class::Control),
    decreases s.len(),
{
    if s.len() > 0 {
        law_display_has_no_controls(s.drop_last());
        let before = displayed(s.drop_last());
        let c = s.last();
        if text::control(c) {
            let more = shown_control(c);
            assert forall|i: int| 0 <= i < more.len() implies !text::control(#[trigger] more[i]) by {}
            assert forall|i: int| 0 <= i < displayed(s).len() implies !text::control(
                #[trigger] displayed(s)[i],
            ) by {
                if i >= before.len() {
                    assert(displayed(s)[i] == more[i - before.len()]);
                } else {
                    assert(displayed(s)[i] == before[i]);
                }
            }
        }
    }
}

/// A text without control characters is displayed as it is.
pub proof fn law_plain_text_is_displayed_as_it_is(s: Seq<char>)
    requires
        !text::some_in(s, Class::Control),
    ensures
        displayed(s) == s,
    decreases s.len(),
{
    if s.len() > 0 {
        assert(!text::control(s[s.len() - 1]));
        assert forall|i: int| 0 <= i < s.drop_last().len() implies !text::control(
            #[trigger] s.drop_last()[i],
        ) by {
            assert(!text::control(s[i]));
        }
        law_plain_text_is_displayed_as_it_is(s.drop_last());
        assert(s.drop_last().push(s.last()) =~= s);
    }
}

fn push_control(out: &mut Vec<char>, c: char)
    requires
        text::control(c),
    ensures
        final(out)@ == old(out)@ + shown_control(c),
{
    let ghost before = out@;
    out.push('\\');
    if c == '\t' {
        out.push('t');
    } else if c == '\r' {
        out.push('r');
    } else if c == '\n' {
        out.push('n');
    } else {
        out.push('u');
        out.push('{');
        let code: u32 = c as u32;
        let digits = hex_chars(code as u8);
        if code < 16 {
            out.push(digits[1]);
            assert(number::hex_pair(c as nat).skip(1) =~= seq![digits@[1]]);
        } else {
            out.push(digits[0]);
            out.push(digits[1]);
            assert(number::hex_pair(c as nat) =~= seq![digits@[0], digits@[1]]);
        }
        out.push('}');
    }
    assert(out@ =~= before + shown_control(c));
}

/// A text with its control characters shown as escapes.
pub fn sanitize_display(value: &str) -> (r: String)
    ensures
        r@ == displayed(value@),
{
    let all = chars_of(value);
    let mut out: Vec<char> = Vec::new();
    let mut i: usize = 0;
    while i < all.len()
        invariant
            i <= all@.len(),
            all@ == value@,
            out@ == displayed(all@.take(i as int)),
        decreases all.len() - i,
    {
        let c = all[i];
        assert(all@.take(i + 1).drop_last() =~= all@.take(i as int));
        if Class::Control.admits(c) {
            push_control(&mut out, c);
        } else {
            out.push(c);
        }
        i += 1;
    }
    assert(all@.take(all@.len() as int) =~= all@);
    text_of(out.as_slice())
}

/// How often, and where, a command was used.
pub open spec fn usage(uses: nat, same_cwd: bool) -> Seq<char> {
    if uses == 1 {
        if same_cwd {
            "used here"@
        } else {
            "used once"@
        }
    } else {
        "used "@ + number::decimal(uses) + (if same_cwd {
            "x, here"@
        } else {
            "x"@
        })
    }
}

/// How often, and where, a command was used.
pub fn history_description(uses: usize, same_cwd: bool) -> (r: String)
    ensures
        r@ == usage(uses as nat, same_cwd),
{
    let mut out = String::new();
    if uses == 1 {
        push_str(&mut out, if same_cwd { "used here" } else { "used once" });
        assert(out@ =~= usage(uses as nat, same_cwd));
        return out;
    }
    push_str(&mut out, "used ");
    push_all(&mut out, decimal_chars(uses as u64).as_slice());
    push_str(&mut out, if same_cwd { "x, here" } else { "x" });
    assert(out@ =~= usage(uses as nat, same_cwd));
    out
}

} // verus!
