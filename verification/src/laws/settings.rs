//! Settings and the places of files.
use vstd::prelude::*;
use vstd::utf8::*;
use crate::config;
use crate::laws::imports;
use crate::laws::locations;
use crate::laws::plain;
use crate::number;
use crate::paths;
use crate::text;
use crate::config::{DirectoryFacts, Environment, Problem, Settings, UiSettings};
use crate::text::Class;

verus! {

/// The completion key may be the control key with a small letter, but for those
/// that the menu needs; it is sent as a caret and the capital letter.
pub proof fn law_control_letters(c: char, more: char, tail: Seq<char>)
    ensures
        ({
            let key = config::key_sequence(seq!['c', 't', 'r', 'l', '-', c]);
            &&& 'a' <= c && c <= 'z' && c != 'i' && c != 'j' && c != 'k' && c != 'm' && c != 'n'
                ==> key == Ok::<Seq<char>, Problem>(
                seq!['^', (c as u32 - 'a' as u32 + 'A' as u32) as char],
            )
            &&& c == 'i' || c == 'j' || c == 'k' || c == 'm' || c == 'n' ==> key == Err::<
                Seq<char>,
                Problem,
            >(Problem::ReservedKey)
            &&& !('a' <= c && c <= 'z') ==> key == Err::<Seq<char>, Problem>(Problem::UnknownKey)
        }),
        config::key_sequence(seq!['c', 't', 'r', 'l', '-', 's', 'p', 'a', 'c', 'e']) == Ok::<
            Seq<char>,
            Problem,
        >(seq!['^', '@']),
        config::key_sequence(seq!['c', 't', 'r', 'l', '-']) == Err::<Seq<char>, Problem>(
            Problem::UnknownKey,
        ),
        tail != seq!['a', 'c', 'e'] ==> config::key_sequence(
            seq!['c', 't', 'r', 'l', '-', c, more] + tail,
        ) == Err::<Seq<char>, Problem>(Problem::UnknownKey),
        more != 'c' ==> config::key_sequence(seq![more] + tail) == Err::<Seq<char>, Problem>(
            Problem::UnknownKey,
        ),
{
    reveal_strlit("ctrl-");
    reveal_strlit("ctrl-space");
    reveal_strlit("^@");
    let one = seq!['c', 't', 'r', 'l', '-', c];
    assert(one.len() != "ctrl-space"@.len());
    assert(one.take(5) =~= "ctrl-"@);
    assert(one.skip(5) =~= seq![c]);
    assert(seq!['c', 't', 'r', 'l', '-', 's', 'p', 'a', 'c', 'e'] =~= "ctrl-space"@);
    assert("^@"@ =~= seq!['^', '@']);
    let bare = seq!['c', 't', 'r', 'l', '-'];
    assert(bare.len() != "ctrl-space"@.len());
    let long = seq!['c', 't', 'r', 'l', '-', c, more] + tail;
    assert(long.skip(5).len() == 2 + tail.len());
    if long == "ctrl-space"@ {
        assert(tail =~= long.skip(7));
        assert("ctrl-space"@.skip(7) =~= seq!['a', 'c', 'e']);
        assert(tail.len() == 3);
        assert(long[5] == 's' && long[6] == 'p');
    }
    let other = seq![more] + tail;
    if more != 'c' {
        if other == "ctrl-space"@ {
            assert(other[0] == 'c');
        }
        if text::starts_with(other, "ctrl-"@) {
            assert(other.take(5)[0] == other[0]);
        }
    }
}

/// A digit of a colour.
pub open spec fn color_digit(c: char) -> bool {
    plain::digit(c) || ('a' <= c && c <= 'f') || ('A' <= c && c <= 'F')
}

/// A colour is a number up to 255, or a hash sign and six hexadecimal digits.
pub proof fn law_colors(digits: Seq<char>, hex: Seq<char>)
    requires
        imports::digits_only(digits),
    ensures
        config::color(digits) <==> imports::number_of(digits) <= 255,
        config::color(seq!['#'] + hex) <==> hex.len() == 6 && forall|i: int|
            0 <= i < hex.len() ==> color_digit(#[trigger] hex[i]),
{
    imports::lemma_number_of(digits);
    assert(plain::digit(digits[0]));
    assert forall|i: int| 0 <= i < digits.len() implies text::in_class(
        Class::AsciiDigit,
        #[trigger] digits[i],
    ) by {
        assert(plain::digit(digits[i]));
    }
    assert(number::unsigned_digits(digits) == digits);
    let s = seq!['#'] + hex;
    assert(s[0] == '#');
    assert(s.skip(1) =~= hex);
    assert(number::unsigned_digits(s) == s);
    assert(!text::in_class(Class::AsciiDigit, s[0]));
    if hex.len() == 6 && (forall|i: int| 0 <= i < hex.len() ==> color_digit(#[trigger] hex[i])) {
        assert forall|i: int| 0 <= i < hex.len() implies text::in_class(
            Class::HexDigit,
            #[trigger] hex[i],
        ) by {
            assert(color_digit(hex[i]));
        }
    }
    if config::color(s) {
        assert forall|i: int| 0 <= i < hex.len() implies color_digit(#[trigger] hex[i]) by {
            assert(text::in_class(Class::HexDigit, hex[i]));
        }
    }
}

/// Every colour of the menu is one.
pub open spec fn colors_are_valid(ui: UiSettings) -> bool {
    &&& config::color(ui.border@)
    &&& config::color(ui.accent@)
    &&& config::color(ui.text@)
    &&& config::color(ui.muted@)
    &&& config::color(ui.ghost_text@)
    &&& config::color(ui.selected_background@)
    &&& config::color(ui.selected_text@)
    &&& config::color(ui.selected_source@)
}

/// Settings are accepted if and only if each of them is in its range.
pub proof fn law_accepted_settings(s: Settings)
    ensures
        config::first_problem(s) is None <==> {
            &&& 1 <= s.completion.max_candidates <= 100
            &&& config::key_sequence(s.completion.key@) is Ok
            &&& 40 <= s.ui.menu_width <= 120
            &&& 1 <= s.ui.max_visible <= 10
            &&& s.ui.prompt_offset <= 40
            &&& colors_are_valid(s.ui)
        },
{
    let list = config::named_colors(s.ui);
    assert(list.len() == 8);
    lemma_bad_color(list);
    assert(list[0].1 == s.ui.border@ && list[1].1 == s.ui.accent@ && list[2].1 == s.ui.text@
        && list[3].1 == s.ui.muted@ && list[4].1 == s.ui.ghost_text@ && list[5].1
        == s.ui.selected_background@ && list[6].1 == s.ui.selected_text@ && list[7].1
        == s.ui.selected_source@);
}

proof fn lemma_bad_color(list: Seq<(Seq<char>, Seq<char>)>)
    ensures
        config::bad_color(list) is None <==> forall|i: int|
            0 <= i < list.len() ==> config::color((#[trigger] list[i]).1),
    decreases list.len(),
{
    if list.len() > 0 {
        let rest = list.drop_first();
        lemma_bad_color(rest);
        assert forall|i: int| 1 <= i < list.len() implies #[trigger] list[i] == rest[i - 1] by {}
        if config::bad_color(list) is None {
            assert forall|i: int| 0 <= i < list.len() implies config::color(
                (#[trigger] list[i]).1,
            ) by {
                if i > 0 {
                    assert(config::color(rest[i - 1].1));
                }
            }
        }
        if forall|i: int| 0 <= i < list.len() ==> config::color((#[trigger] list[i]).1) {
            assert forall|i: int| 0 <= i < rest.len() implies config::color(
                (#[trigger] rest[i]).1,
            ) by {
                assert(config::color(list[i + 1].1));
            }
            assert(config::color(list[0].1));
        }
    }
}

proof fn lemma_relative(s: Seq<char>)
    requires
        s.len() > 0,
        plain::visible(s[0]),
        s[0] != '/',
    ensures
        encode_utf8(s).len() > 0,
        !paths::absolute(encode_utf8(s)),
{
    locations::lemma_slash_first(s);
}

/// The settings are read from where `ASTER_CONFIG` says; otherwise from
/// `aster/config.toml` in the configuration directory, which is `.config` in the
/// home directory where the environment names no other.
pub proof fn law_place_of_settings(env: Environment)
    requires
        env.home is Some,
        env.home->Some_0@.len() > 0,
        env.xdg_config_home is Some ==> env.xdg_config_home->Some_0@.len() > 0,
    ensures
        ({
            let path = config::config_path(env);
            let file = "aster/config.toml"@;
            &&& env.aster_config is Some ==> path == env.aster_config->Some_0@
            &&& env.aster_config is None && env.xdg_config_home is Some ==> path
                == locations::inside(env.xdg_config_home->Some_0@, file)
            &&& env.aster_config is None && env.xdg_config_home is None ==> path
                == locations::inside(locations::inside(env.home->Some_0@, ".config"@), file)
        }),
{
    reveal_strlit("aster/config.toml");
    reveal_strlit(".config");
    let file = "aster/config.toml"@;
    lemma_relative(file);
    lemma_relative(".config"@);
    locations::lemma_inside(env.home->Some_0@, ".config"@);
    locations::lemma_inside(
        if env.xdg_config_home is Some {
            env.xdg_config_home->Some_0@
        } else {
            locations::inside(env.home->Some_0@, ".config"@)
        },
        file,
    );
}

/// The state is kept where `ASTER_STATE_DIR` says; otherwise in `aster` in the
/// state directory, which is `.local/state` in the home directory where the
/// environment names no other. The socket stands there too, unless
/// `ASTER_SOCKET` says otherwise.
pub proof fn law_place_of_state(env: Environment, state: Seq<u8>)
    requires
        env.home is Some,
        env.home->Some_0@.len() > 0,
        env.xdg_state_home is Some ==> env.xdg_state_home->Some_0@.len() > 0,
        state.len() > 0,
    ensures
        ({
            let path = config::state_path(env);
            let socket = config::socket_path(env, state);
            &&& env.aster_state_dir is Some ==> path == env.aster_state_dir->Some_0@
            &&& env.aster_state_dir is None && env.xdg_state_home is Some ==> path
                == locations::inside(env.xdg_state_home->Some_0@, "aster"@)
            &&& env.aster_state_dir is None && env.xdg_state_home is None ==> path
                == locations::inside(
                locations::inside(env.home->Some_0@, ".local/state"@),
                "aster"@,
            )
            &&& env.aster_socket is Some ==> socket == env.aster_socket->Some_0@
            &&& env.aster_socket is None ==> socket == locations::inside(state, "aster.sock"@)
        }),
{
    reveal_strlit("aster");
    reveal_strlit(".local/state");
    reveal_strlit("aster.sock");
    lemma_relative("aster"@);
    lemma_relative(".local/state"@);
    lemma_relative("aster.sock"@);
    locations::lemma_inside(env.home->Some_0@, ".local/state"@);
    locations::lemma_inside(
        if env.xdg_state_home is Some {
            env.xdg_state_home->Some_0@
        } else {
            locations::inside(env.home->Some_0@, ".local/state"@)
        },
        "aster"@,
    );
    locations::lemma_inside(state, "aster.sock"@);
}

/// A path that does not start at the root is seen from the working directory.
pub proof fn law_rooted_paths(directory: Seq<u8>, path: Seq<char>, current: Seq<u8>)
    requires
        path.len() > 0,
        plain::visible(path[0]),
        current.len() > 0,
    ensures
        path[0] == '/' ==> config::rooted(encode_utf8(path), Some(current)) == Some(
            encode_utf8(path),
        ),
        path[0] == '/' ==> config::rooted(encode_utf8(path), None) == Some(encode_utf8(path)),
        path[0] != '/' ==> config::rooted(encode_utf8(path), Some(current)) == Some(
            locations::inside(current, path),
        ),
        path[0] != '/' ==> config::rooted(encode_utf8(path), None) is None,
{
    locations::lemma_slash_first(path);
    if path[0] != '/' {
        locations::lemma_inside(current, path);
    }
}

/// A directory is private if it is one, belongs to the user, and gives nobody else
/// any right.
pub proof fn law_private_directories(facts: DirectoryFacts, user: u32)
    ensures
        config::directory_problem(facts, user) is None <==> facts.is_dir && facts.owner == user
            && facts.mode % 64 == 0,
        !facts.is_dir || facts.owner != user ==> config::directory_problem(facts, user) == Some(
            Problem::DirectoryNotOwned,
        ),
        facts.is_dir && facts.owner == user && facts.mode % 64 != 0 ==> config::directory_problem(
            facts,
            user,
        ) == Some(Problem::DirectoryNotPrivate),
{
    let mode = facts.mode;
    assert(mode & 0o077 == mode % 64) by (bit_vector);
}

} // verus!
