//! Where paths are looked for.
use vstd::prelude::*;
use vstd::utf8::*;
use crate::engine::filesystem;
use crate::laws::plain;
use crate::order;
use crate::paths;
use crate::text;
use crate::engine::filesystem::{EntryKind, EntryView, PathView};
use crate::protocol::{CandidateKind, CandidateSource, CandidateView};
use crate::text::Class;

verus! {

/// A directory followed by a path in it, with one slash between them.
pub open spec fn inside(directory: Seq<u8>, path: Seq<char>) -> Seq<u8> {
    if directory.len() > 0 && directory.last() == 0x2f {
        directory + encode_utf8(path)
    } else {
        directory + seq![0x2fu8] + encode_utf8(path)
    }
}

/// A part of a path up to and with its last slash, or nothing.
pub open spec fn whole_directories(s: Seq<char>) -> bool {
    s.len() == 0 || s.last() == '/'
}

pub proof fn lemma_slash_first(s: Seq<char>)
    requires
        s.len() > 0,
        plain::visible(s[0]),
    ensures
        encode_utf8(s).len() > 0,
        encode_utf8(s)[0] == s[0] as u8,
{
    let first = seq![s[0]];
    assert(first[0] == s[0]);
    is_ascii_chars_encode_utf8(first);
    assert(encode_utf8(first)[0] == first[0] as u8);
    assert(first.drop_first() =~= Seq::empty());
    assert(encode_utf8(first) =~= encode_scalar(s[0] as u32));
}

/// Joining a path that does not start at the root puts it into the directory.
pub proof fn lemma_inside(directory: Seq<u8>, path: Seq<char>)
    requires
        directory.len() > 0,
        path.len() > 0,
        plain::visible(path[0]),
        path[0] != '/',
    ensures
        paths::join(directory, encode_utf8(path)) == inside(directory, path),
        inside(directory, path).len() > 0,
{
    lemma_slash_first(path);
    assert(directory.push(paths::SLASH) =~= directory + seq![0x2fu8]);
}

/// Where the home directory is known, a path behind `~/` is looked for there,
/// wherever the shell stands.
pub proof fn law_home_wherever_the_shell_stands(
    rest: Seq<char>,
    cwd: Seq<char>,
    other: Seq<char>,
    home: Seq<u8>,
)
    requires
        home.len() > 0,
    ensures
        filesystem::resolved(seq!['~', '/'] + rest, cwd, Some(home)) == filesystem::resolved(
            seq!['~', '/'] + rest,
            other,
            Some(home),
        ),
        filesystem::resolved(seq!['~', '/'], cwd, Some(home)) == home,
        rest.len() > 0 && plain::visible(rest[0]) && rest[0] != '/' ==> filesystem::resolved(
            seq!['~', '/'] + rest,
            cwd,
            Some(home),
        ) == inside(home, rest),
{
    let s = seq!['~', '/'] + rest;
    reveal_strlit("~/");
    assert("~/"@ =~= seq!['~', '/']);
    assert(s.take(2) =~= "~/"@);
    assert(s.skip(2) =~= rest);
    assert("~/"@.take(2) =~= "~/"@);
    if rest.len() > 0 {
        assert(s.len() != "~/"@.len());
    }
    if rest.len() > 0 && plain::visible(rest[0]) && rest[0] != '/' {
        lemma_slash_first(rest);
        assert(home.push(paths::SLASH) =~= home + seq![0x2fu8]);
    }
}

/// Any other path is looked for from the root, if it starts there, and otherwise
/// from where the shell stands, whatever the home directory is.
pub proof fn law_other_paths_ignore_home(
    directory: Seq<char>,
    cwd: Seq<char>,
    home: Option<Seq<u8>>,
)
    requires
        cwd.len() > 0,
        encode_utf8(cwd).len() > 0,
        directory.len() > 0,
        plain::visible(directory[0]),
        directory.len() >= 2 ==> directory[0] != '~' || directory[1] != '/',
    ensures
        directory[0] == '/' ==> filesystem::resolved(directory, cwd, home) == encode_utf8(directory),
        directory[0] != '/' ==> filesystem::resolved(directory, cwd, home) == inside(
            encode_utf8(cwd),
            directory,
        ),
{
    reveal_strlit("~/");
    assert("~/"@ =~= seq!['~', '/']);
    if text::starts_with(directory, "~/"@) {
        assert(directory.take(2)[0] == '~' && directory.take(2)[1] == '/');
    }
    lemma_slash_first(directory);
    assert(encode_utf8(cwd).push(paths::SLASH) =~= encode_utf8(cwd) + seq![0x2fu8]);
}

proof fn lemma_plain_marks(words: Seq<char>)
    requires
        plain::lacks(words, '\\'),
    ensures
        !filesystem::marks(words).escaped,
    decreases words.len(),
{
    if words.len() > 0 {
        let rest = words.drop_last();
        assert forall|i: int| 0 <= i < rest.len() implies #[trigger] rest[i] != '\\' by {
            assert(rest[i] == words[i]);
        }
        lemma_plain_marks(rest);
        assert(words[words.len() - 1] != '\\');
    }
}

proof fn lemma_argument(words: Seq<char>, token: Seq<char>, n: int)
    requires
        plain::lacks(words, '\\'),
        plain::typed_word(token),
        0 <= n <= token.len(),
    ensures
        ({
            let buffer = words.push(' ') + token.take(n);
            &&& filesystem::marks(buffer).start == Some(words.len() as int + 1)
            &&& !filesystem::marks(buffer).escaped
            &&& filesystem::unescaping(token.take(n)) == Some(
                filesystem::Unescaping { text: token.take(n), escaped: false },
            )
        }),
    decreases n,
{
    if n == 0 {
        lemma_plain_marks(words);
        assert(words.push(' ') + token.take(0) =~= words.push(' '));
        assert(words.push(' ').drop_last() =~= words);
    } else {
        lemma_argument(words, token, n - 1);
        let buffer = words.push(' ') + token.take(n);
        assert(buffer.drop_last() =~= words.push(' ') + token.take(n - 1));
        assert(token.take(n).drop_last() =~= token.take(n - 1));
        assert(token.take(n - 1).push(token[n - 1]) =~= token.take(n));
        assert(plain::typed(token[n - 1]));
        assert(buffer.last() == token[n - 1]);
    }
}

proof fn lemma_directory_part(directory: Seq<char>, name: Seq<char>)
    requires
        whole_directories(directory),
        plain::lacks(name, '/'),
    ensures
        filesystem::directory_length(directory + name) == directory.len(),
        filesystem::directory_part(directory + name) == directory,
        filesystem::name_part(directory + name) == name,
    decreases name.len(),
{
    let s = directory + name;
    if name.len() == 0 {
        assert(s =~= directory);
        if directory.len() == 0 {
            assert(filesystem::directory_length(s) == 0);
        }
    } else {
        let shorter = name.drop_last();
        assert forall|i: int| 0 <= i < shorter.len() implies #[trigger] shorter[i] != '/' by {
            assert(shorter[i] == name[i]);
        }
        lemma_directory_part(directory, shorter);
        assert(s.drop_last() =~= directory + shorter);
        assert(s.last() == name[name.len() - 1]);
    }
    assert(s.take(directory.len() as int) =~= directory);
    assert(s.skip(directory.len() as int) =~= name);
}

/// A word of plain characters at the end of a command line is a path: up to its
/// last slash it names the directory that is listed, and what follows is the
/// beginning of a name. An option is none.
pub proof fn law_word_is_a_path(
    words: Seq<char>,
    directory: Seq<char>,
    name: Seq<char>,
    limit: nat,
)
    requires
        plain::lacks(words, '\\'),
        plain::typed_word(directory + name),
        whole_directories(directory),
        plain::lacks(name, '/'),
        limit > 0,
    ensures
        ({
            let word = directory + name;
            let buffer = words + seq![' '] + word;
            let end = encode_utf8(buffer).len();
            if word.len() > 0 && word[0] == '-' {
                !filesystem::completable(buffer, end, limit)
            } else {
                &&& filesystem::completable(buffer, end, limit)
                &&& filesystem::path_token(buffer) == Some(word)
                &&& filesystem::directory_part(word) == directory
                &&& filesystem::name_part(word) == name
            }
        }),
{
    let word = directory + name;
    let buffer = words + seq![' '] + word;
    lemma_argument(words, word, word.len() as int);
    assert(word.take(word.len() as int) =~= word);
    assert(buffer =~= words.push(' ') + word);
    assert(buffer.skip(words.len() as int + 1) =~= word);
    lemma_directory_part(directory, name);
}

/// In a command line without an argument there is no path, nor is there one
/// before the end of the line, nor where no candidate is wanted.
pub proof fn law_no_path(buffer: Seq<char>, cursor: nat, limit: nat)
    ensures
        (forall|i: int| 0 <= i < buffer.len() ==> plain::visible(#[trigger] buffer[i]))
            ==> !filesystem::completable(buffer, cursor, limit),
        cursor != encode_utf8(buffer).len() ==> !filesystem::completable(buffer, cursor, limit),
        !filesystem::completable(buffer, cursor, 0),
{
    if forall|i: int| 0 <= i < buffer.len() ==> plain::visible(#[trigger] buffer[i]) {
        filesystem::law_argument_start(buffer);
        if filesystem::argument_start(buffer) is Some {
            let start = filesystem::argument_start(buffer)->Some_0;
            assert(plain::visible(buffer[start - 1]));
        }
    }
}

/// A path behind `~/` at the end of a command line is looked for in the home
/// directory, whatever the working directory: what is listed is the home
/// directory followed by what stands between `~/` and the last slash.
pub proof fn law_home_path_is_listed_in_home(
    words: Seq<char>,
    directory: Seq<char>,
    name: Seq<char>,
    cwd: Seq<char>,
    home: Seq<u8>,
    limit: nat,
)
    requires
        plain::lacks(words, '\\'),
        plain::typed_word(directory + name),
        whole_directories(directory),
        directory.len() > 0 ==> directory[0] != '/',
        plain::lacks(name, '/'),
        home.len() > 0,
        limit > 0,
    ensures
        ({
            let buffer = words + seq![' ', '~', '/'] + directory + name;
            let listed = filesystem::resolved(
                filesystem::directory_part(filesystem::path_token(buffer)->Some_0),
                cwd,
                Some(home),
            );
            &&& filesystem::completable(buffer, encode_utf8(buffer).len(), limit)
            &&& filesystem::path_token(buffer) is Some
            &&& listed == if directory.len() == 0 {
                home
            } else {
                inside(home, directory)
            }
        }),
{
    let tilde = seq!['~', '/'];
    let buffer = words + seq![' ', '~', '/'] + directory + name;
    let whole = tilde + directory;
    assert(whole + name =~= tilde + (directory + name));
    assert forall|i: int| 0 <= i < (whole + name).len() implies plain::typed(
        #[trigger] (whole + name)[i],
    ) by {
        if i >= 2 {
            assert((whole + name)[i] == (directory + name)[i - 2]);
        }
    }
    assert(whole.last() == '/');
    law_word_is_a_path(words, whole, name, limit);
    assert(buffer =~= words + seq![' '] + (whole + name));
    law_home_wherever_the_shell_stands(directory, cwd, cwd, home);
    if directory.len() > 0 {
        assert((directory + name)[0] == directory[0]);
        assert(plain::typed((directory + name)[0]));
    } else {
        assert(whole =~= tilde);
    }
}

/// A character of a name that is typed behind a backslash.
pub open spec fn typed_behind_backslash(c: char) -> bool {
    c <= '\u{7f}' && !plain::letter_or_digit(c) && c != '_' && c != '-' && c != '+' && c != '.' && c
        != '@' && c != '%' && c != ','
}

/// A name as it is typed.
pub open spec fn as_typed(name: Seq<char>) -> Seq<char>
    decreases name.len(),
{
    if name.len() == 0 {
        Seq::empty()
    } else if typed_behind_backslash(name[0]) {
        seq!['\\', name[0]] + as_typed(name.skip(1))
    } else {
        seq![name[0]] + as_typed(name.skip(1))
    }
}

proof fn lemma_escaped_cons(c: char, rest: Seq<char>)
    ensures
        filesystem::escaped(seq![c] + rest) == (if typed_behind_backslash(c) {
            seq!['\\', c]
        } else {
            seq![c]
        }) + filesystem::escaped(rest),
    decreases rest.len(),
{
    let s = seq![c] + rest;
    let none = Seq::<char>::empty();
    if rest.len() == 0 {
        assert(s =~= seq![c]);
        assert(s.drop_last() =~= none);
        assert(filesystem::escaped(none) == none);
        assert(filesystem::escaped(s) =~= (if typed_behind_backslash(c) {
            seq!['\\', c]
        } else {
            seq![c]
        }) + filesystem::escaped(rest));
    } else {
        lemma_escaped_cons(c, rest.drop_last());
        assert(s.drop_last() =~= seq![c] + rest.drop_last());
        assert(s.last() == rest.last());
        assert(filesystem::escaped(s) =~= (if typed_behind_backslash(c) {
            seq!['\\', c]
        } else {
            seq![c]
        }) + filesystem::escaped(rest));
    }
}

/// A name is typed character by character, with a backslash before all of ASCII
/// but letters, digits and a few marks.
pub proof fn law_typed_names(name: Seq<char>)
    ensures
        filesystem::escaped(name) == as_typed(name),
    decreases name.len(),
{
    if name.len() > 0 {
        law_typed_names(name.skip(1));
        lemma_escaped_cons(name[0], name.skip(1));
        assert(seq![name[0]] + name.skip(1) =~= name);
    }
}

/// A name without control characters.
pub open spec fn writable(name: Seq<char>) -> bool {
    forall|i: int|
        0 <= i < name.len() ==> (' ' <= #[trigger] name[i] && name[i] <= '~') || name[i] >= '\u{a0}'
}

/// An entry whose name goes on from what is typed completes it: a directory with
/// a slash behind it, anything else without, and a complete file with a space. A
/// name that starts with a dash is led by `./` where nothing is typed. Hidden
/// entries complete a dot only; entries that are neither directories nor files,
/// and those with control characters in their names, complete nothing.
pub proof fn law_entry_completes(
    directory: Seq<char>,
    start: Seq<char>,
    rest: Seq<char>,
    kind: EntryKind,
)
    requires
        whole_directories(directory),
        plain::lacks(start, '/'),
        (start + rest).len() > 0,
    ensures
        ({
            let token = directory + start;
            let name = start + rest;
            let found = filesystem::path_match(
                token,
                Some(EntryView { name: Some(name), kind: Some(kind) }),
            );
            let hidden = start.len() == 0 && rest[0] == '.';
            let is_directory = kind == EntryKind::Directory || kind
                == EntryKind::SymlinkToDirectory;
            let lead = if token.len() == 0 && rest[0] == '-' {
                seq!['.', '/']
            } else {
                Seq::empty()
            };
            if writable(name) && !hidden && kind != EntryKind::Other {
                found == Some(
                    PathView {
                        is_directory,
                        name,
                        insert_text: if is_directory {
                            lead + as_typed(rest) + seq!['/']
                        } else if rest.len() == 0 {
                            seq![' ']
                        } else {
                            lead + as_typed(rest)
                        },
                        exact_file: !is_directory && rest.len() == 0,
                    },
                )
            } else {
                found is None
            }
        }),
{
    let token = directory + start;
    let name = start + rest;
    lemma_directory_part(directory, start);
    assert(name.take(start.len() as int) =~= start);
    assert(name.skip(start.len() as int) =~= rest);
    law_typed_names(rest);
    reveal_strlit("./");
    assert("./"@ =~= seq!['.', '/']);
    if writable(name) {
        assert(!text::some_in(name, Class::Control)) by {
            if text::some_in(name, Class::Control) {
                let i = choose|i: int| 0 <= i < name.len() && text::in_class(
                    Class::Control,
                    #[trigger] name[i],
                );
                assert(false);
            }
        }
    } else {
        let i = choose|i: int|
            0 <= i < name.len() && !((' ' <= #[trigger] name[i] && name[i] <= '~') || name[i]
                >= '\u{a0}');
        assert(text::in_class(Class::Control, name[i]));
    }
    if start.len() > 0 {
        assert(name[0] == start[0]);
    } else {
        assert(name[0] == rest[0]);
    }
    if rest.len() > 0 {
        assert(as_typed(rest).len() > 0);
    }
    let lead = if token.len() == 0 && rest[0] == '-' {
        seq!['.', '/']
    } else {
        Seq::<char>::empty()
    };
    assert(lead + as_typed(rest) + seq!['/'] =~= (lead + as_typed(rest)).push('/'));
    assert(Seq::<char>::empty() + as_typed(rest) =~= as_typed(rest));
}

/// An entry that does not go on from what is typed, or whose name or kind could
/// not be read, completes nothing.
pub proof fn law_other_entries_complete_nothing(
    directory: Seq<char>,
    start: Seq<char>,
    name: Seq<char>,
    kind: Option<EntryKind>,
    i: int,
)
    requires
        whole_directories(directory),
        plain::lacks(start, '/'),
        0 <= i < start.len(),
        i < name.len() ==> name[i] != start[i],
    ensures
        filesystem::path_match(
            directory + start,
            Some(EntryView { name: Some(name), kind }),
        ) is None,
        filesystem::path_match(directory + start, Some(EntryView { name: None, kind })) is None,
        filesystem::path_match(
            directory + start,
            Some(EntryView { name: Some(start), kind: None }),
        ) is None,
        filesystem::path_match(directory + start, None) is None,
{
    lemma_directory_part(directory, start);
    if text::starts_with(name, start) {
        assert(name.take(start.len() as int)[i] == name[i]);
    }
}

/// The row of an entry that completes a path.
pub open spec fn path_row(buffer: Seq<char>, found: PathView) -> CandidateView {
    CandidateView {
        display: if found.exact_file { buffer } else { buffer + found.insert_text },
        description: if found.is_directory { "Directory"@ } else { "File"@ },
        description_pending: false,
        kind: if found.is_directory { CandidateKind::Directory } else { CandidateKind::File },
        insert_text: found.insert_text,
        accept_text: found.insert_text.take(
            crate::engine::segment::segment_length(found.insert_text) as int,
        ),
        source: CandidateSource::Filesystem,
    }
}

/// Every entry that completes the path under the cursor has its row, as long as
/// the directory is not too long for the menu. Directories stand before files,
/// and both in the order of their names.
pub proof fn law_completing_entries_are_offered(
    buffer: Seq<char>,
    listing: Seq<Option<EntryView>>,
    limit: nat,
    k: int,
)
    requires
        filesystem::path_token(buffer) is Some,
        listing.len() <= limit,
        listing.len() <= 1024,
        0 <= k < listing.len(),
        filesystem::path_match(filesystem::path_token(buffer)->Some_0, listing[k]) is Some,
    ensures
        ({
            let token = filesystem::path_token(buffer)->Some_0;
            let found = filesystem::path_match(token, listing[k])->Some_0;
            let rows = filesystem::path_candidates(
                buffer,
                encode_utf8(buffer).len(),
                Some(listing),
                limit,
            );
            let all = filesystem::path_matches(token, listing);
            &&& rows.contains(path_row(buffer, found))
            &&& rows.len() == all.len()
            &&& forall|i: int, j: int|
                0 <= i < j < all.len() ==> {
                    let a = #[trigger] all[i];
                    let b = #[trigger] all[j];
                    &&& b.is_directory ==> a.is_directory
                    &&& a.is_directory == b.is_directory ==> order::text_le(a.name, b.name)
                }
        }),
{
    let token = filesystem::path_token(buffer)->Some_0;
    let found = filesystem::path_match(token, listing[k])->Some_0;
    let rows = filesystem::path_candidates(
        buffer,
        encode_utf8(buffer).len(),
        Some(listing),
        limit,
    );
    let pick = filesystem::matcher(token);
    let some = listing.filter_map(pick);
    let all = filesystem::path_matches(token, listing);
    filesystem::law_path_order();
    order::law_ordered(some, filesystem::path_order());
    lemma_picked(listing, pick, k);
    assert(some.contains(found));
    some.to_multiset_ensures();
    all.to_multiset_ensures();
    assert(some.to_multiset().contains(found));
    assert(all.contains(found));
    let n = choose|n: int| 0 <= n < all.len() && all[n] == found;
    assert(rows[n] == path_row(buffer, found));
    let le = filesystem::path_order();
    assert forall|i: int, j: int| 0 <= i < j < all.len() implies {
        let a = #[trigger] all[i];
        let b = #[trigger] all[j];
        &&& b.is_directory ==> a.is_directory
        &&& a.is_directory == b.is_directory ==> order::text_le(a.name, b.name)
    } by {
        assert(le(all[i], all[j]));
    }
}

proof fn lemma_picked(
    listing: Seq<Option<EntryView>>,
    pick: spec_fn(Option<EntryView>) -> Option<PathView>,
    k: int,
)
    requires
        0 <= k < listing.len(),
        pick(listing[k]) is Some,
    ensures
        listing.filter_map(pick).contains(pick(listing[k])->Some_0),
        listing.filter_map(pick).len() <= listing.len(),
    decreases listing.len(),
{
    reveal(Seq::filter_map);
    let rest = listing.drop_last();
    lemma_picked_fewer(rest, pick);
    if k < rest.len() {
        lemma_picked(rest, pick, k);
        assert(rest[k] == listing[k]);
        let wanted = pick(listing[k])->Some_0;
        let n = choose|n: int|
            0 <= n < rest.filter_map(pick).len() && rest.filter_map(pick)[n] == wanted;
        assert(listing.filter_map(pick)[n] == wanted);
    } else {
        assert(listing.filter_map(pick).last() == pick(listing[k])->Some_0);
    }
}

proof fn lemma_picked_fewer(
    listing: Seq<Option<EntryView>>,
    pick: spec_fn(Option<EntryView>) -> Option<PathView>,
)
    ensures
        listing.filter_map(pick).len() <= listing.len(),
    decreases listing.len(),
{
    reveal(Seq::filter_map);
    if listing.len() > 0 {
        lemma_picked_fewer(listing.drop_last(), pick);
    }
}

} // verus!
