//! Paths as candidates: the argument under the cursor, the directory to look
//! in, and the entries of it that complete the argument.
use vstd::prelude::*;
use vstd::utf8::*;
use crate::engine::segment;
use crate::order;
use crate::paths;
use crate::text;
use crate::engine::error::EngineError;
use crate::engine::segment::next_segment;
use crate::order::in_text_order;
use crate::paths::{bytes_of, joined};
use crate::protocol::{Candidate, CandidateKind, CandidateSource, CandidateView};
use crate::text::{
    begins_with, begins_with_str, chars_of, from_index, has_some, push_all, push_str, same_as,
    text_of, up_to, Class,
};

verus! {

/// How many entries of a directory are looked at.
pub const MAX_DIRECTORY_ENTRIES: usize = 1024;

// ---------------------------------------------------------------------------
// The argument under the cursor
// ---------------------------------------------------------------------------

/// A reading of a buffer up to some point: where its last argument starts, and
/// whether the next character is escaped.
pub struct Marks {
    pub start: Option<int>,
    pub escaped: bool,
}

/// A buffer read to its end.
pub open spec fn marks(s: Seq<char>) -> Marks
    decreases s.len(),
{
    if s.len() == 0 {
        Marks { start: None, escaped: false }
    } else {
        let before = marks(s.drop_last());
        if before.escaped {
            Marks { escaped: false, ..before }
        } else if s.last() == '\\' {
            Marks { escaped: true, ..before }
        } else if text::whitespace(s.last()) {
            Marks { start: Some(s.len() as int), escaped: false }
        } else {
            before
        }
    }
}

/// Where the last argument of a buffer starts, if it has one behind its
/// command.
pub open spec fn argument_start(s: Seq<char>) -> Option<int> {
    marks(s).start
}

/// How many backslashes stand directly before a position.
pub open spec fn backslashes_before(s: Seq<char>, i: int) -> nat
    decreases i,
{
    if 0 < i <= s.len() && s[i - 1] == '\\' {
        1 + backslashes_before(s, i - 1)
    } else {
        0
    }
}

/// The character at a position ends an argument: white space that no backslash
/// stands for.
pub open spec fn separates(s: Seq<char>, i: int) -> bool {
    text::whitespace(s[i]) && backslashes_before(s, i) % 2 == 0
}

proof fn lemma_separators(s: Seq<char>, n: int)
    requires
        0 <= n <= s.len(),
    ensures
        marks(s.take(n)).escaped == (backslashes_before(s, n) % 2 == 1),
        match marks(s.take(n)).start {
            Some(start) => {
                &&& 0 < start <= n
                &&& separates(s, start - 1)
                &&& forall|i: int| start <= i < n ==> !#[trigger] separates(s, i)
            },
            None => forall|i: int| 0 <= i < n ==> !#[trigger] separates(s, i),
        },
    decreases n,
{
    if n > 0 {
        lemma_separators(s, n - 1);
        assert(s.take(n).drop_last() =~= s.take(n - 1));
        assert(s.take(n).last() == s[n - 1]);
        assert(!text::whitespace('\\'));
    }
}

/// The last argument starts behind the last white space that is not escaped.
/// Where there is none, the buffer has no argument behind its command.
pub proof fn law_argument_start(s: Seq<char>)
    ensures
        match argument_start(s) {
            Some(start) => {
                &&& 0 < start <= s.len()
                &&& separates(s, start - 1)
                &&& forall|i: int| start <= i < s.len() ==> !#[trigger] separates(s, i)
            },
            None => forall|i: int| 0 <= i < s.len() ==> !#[trigger] separates(s, i),
        },
{
    lemma_separators(s, s.len() as int);
    assert(s.take(s.len() as int) =~= s);
}

/// A reading of a path token up to some point: what it stands for, and whether
/// the next character is escaped.
pub struct Unescaping {
    pub text: Seq<char>,
    pub escaped: bool,
}

/// A path token read to its end, unless it holds what the shell would read.
pub open spec fn unescaping(s: Seq<char>) -> Option<Unescaping>
    decreases s.len(),
{
    if s.len() == 0 {
        Some(Unescaping { text: s, escaped: false })
    } else {
        match unescaping(s.drop_last()) {
            Some(before) => if before.escaped {
                Some(Unescaping { text: before.text.push(s.last()), escaped: false })
            } else if s.last() == '\\' {
                Some(Unescaping { escaped: true, ..before })
            } else if text::control(s.last()) || text::in_class(Class::ShellMeta, s.last()) {
                None
            } else {
                Some(Unescaping { text: before.text.push(s.last()), escaped: false })
            },
            None => None,
        }
    }
}

/// What a path token stands for.
pub open spec fn unescaped(s: Seq<char>) -> Option<Seq<char>> {
    match unescaping(s) {
        Some(read) => if read.escaped {
            None
        } else {
            Some(read.text)
        },
        None => None,
    }
}

/// An ASCII character that a path token holds only behind a backslash.
pub open spec fn needs_escape(c: char) -> bool {
    !text::in_class(Class::PathPlain, c)
}

/// A name as it is typed.
pub open spec fn escaped(s: Seq<char>) -> Seq<char>
    decreases s.len(),
{
    if s.len() == 0 {
        s
    } else if needs_escape(s.last()) {
        escaped(s.drop_last()).push('\\').push(s.last())
    } else {
        escaped(s.drop_last()).push(s.last())
    }
}

/// A token followed by a typed name stands for what the token stood for,
/// followed by the name. Only a control character outside ASCII is typed as it
/// is and not read back.
pub proof fn law_escaped_name_reads_back(token: Seq<char>, name: Seq<char>)
    requires
        unescaped(token) is Some,
        forall|i: int| 0 <= i < name.len() && text::control(#[trigger] name[i]) ==> name[i] < '\u{80}',
    ensures
        unescaped(token + escaped(name)) == Some(unescaped(token)->Some_0 + name),
    decreases name.len(),
{
    if name.len() == 0 {
        assert(token + escaped(name) =~= token);
        assert(unescaped(token)->Some_0 + name =~= unescaped(token)->Some_0);
    } else {
        let rest = name.drop_last();
        let c = name.last();
        assert forall|i: int| 0 <= i < rest.len() && text::control(#[trigger] rest[i]) implies rest[i] < '\u{80}' by {
            assert(rest[i] == name[i]);
        }
        law_escaped_name_reads_back(token, rest);
        let before = token + escaped(rest);
        let after = token + escaped(name);
        assert(c == name[name.len() - 1]);
        assert((unescaped(token)->Some_0 + rest).push(c) =~= unescaped(token)->Some_0 + name);
        if needs_escape(c) {
            let middle = before.push('\\');
            assert(after =~= middle.push(c));
            assert(middle.drop_last() =~= before);
            assert(after.drop_last() =~= middle);
            assert(unescaping(middle)->Some_0.escaped);
            assert(unescaping(after) is Some);
        } else {
            assert(after =~= before.push(c));
            assert(after.drop_last() =~= before);
            assert(unescaping(after) is Some);
        }
    }
}

/// A typed name stays in the argument that it completes. Only white space
/// outside ASCII is typed as it is and ends the argument.
pub proof fn law_escaped_name_stays_in_argument(buffer: Seq<char>, name: Seq<char>)
    requires
        !marks(buffer).escaped,
        forall|i: int|
            0 <= i < name.len() && text::whitespace(#[trigger] name[i]) ==> name[i] < '\u{80}',
    ensures
        marks(buffer + escaped(name)) == marks(buffer),
    decreases name.len(),
{
    if name.len() == 0 {
        assert(buffer + escaped(name) =~= buffer);
    } else {
        let rest = name.drop_last();
        let c = name.last();
        assert forall|i: int| 0 <= i < rest.len() && text::whitespace(#[trigger] rest[i]) implies rest[i] < '\u{80}' by {
            assert(rest[i] == name[i]);
        }
        law_escaped_name_stays_in_argument(buffer, rest);
        let before = buffer + escaped(rest);
        let after = buffer + escaped(name);
        assert(c == name[name.len() - 1]);
        if needs_escape(c) {
            let middle = before.push('\\');
            assert(after =~= middle.push(c));
            assert(middle.drop_last() =~= before);
            assert(after.drop_last() =~= middle);
            assert(marks(middle).escaped);
            assert(marks(after) == marks(before));
        } else {
            assert(after =~= before.push(c));
            assert(after.drop_last() =~= before);
            assert(marks(after) == marks(before));
        }
    }
}

/// Where the last argument of a buffer starts.
pub fn current_argument_start(buffer: &[char]) -> (r: Option<usize>)
    ensures
        match r {
            Some(i) => argument_start(buffer@) == Some(i as int) && i <= buffer@.len(),
            None => argument_start(buffer@) is None,
        },
{
    let mut start: Option<usize> = None;
    let mut is_escaped = false;
    let mut i: usize = 0;
    while i < buffer.len()
        invariant
            i <= buffer@.len(),
            marks(buffer@.take(i as int)).escaped == is_escaped,
            match start {
                Some(n) => marks(buffer@.take(i as int)).start == Some(n as int) && n <= i,
                None => marks(buffer@.take(i as int)).start is None,
            },
        decreases buffer.len() - i,
    {
        let c = buffer[i];
        assert(buffer@.take(i + 1).drop_last() =~= buffer@.take(i as int));
        if is_escaped {
            is_escaped = false;
        } else if c == '\\' {
            is_escaped = true;
        } else if Class::Whitespace.admits(c) {
            start = Some(i + 1);
        }
        i += 1;
    }
    assert(buffer@.take(buffer@.len() as int) =~= buffer@);
    start
}

/// What a path token stands for.
pub fn unescape_path_token(value: &[char]) -> (r: Option<Vec<char>>)
    ensures
        match r {
            Some(t) => unescaped(value@) == Some(t@),
            None => unescaped(value@) is None,
        },
{
    let mut text: Vec<char> = Vec::new();
    let mut is_escaped = false;
    let mut i: usize = 0;
    assert(text@ =~= value@.take(0));
    while i < value.len()
        invariant
            i <= value@.len(),
            unescaping(value@.take(i as int)) == Some(
                Unescaping { text: text@, escaped: is_escaped },
            ),
        decreases value.len() - i,
    {
        let c = value[i];
        assert(value@.take(i + 1).drop_last() =~= value@.take(i as int));
        if is_escaped {
            text.push(c);
            is_escaped = false;
        } else if c == '\\' {
            is_escaped = true;
        } else if Class::Control.admits(c) || Class::ShellMeta.admits(c) {
            proof {
                lemma_unreadable_start(value@, i + 1);
            }
            return None;
        } else {
            text.push(c);
        }
        i += 1;
    }
    assert(value@.take(value@.len() as int) =~= value@);
    if is_escaped {
        None
    } else {
        Some(text)
    }
}

proof fn lemma_unreadable_start(s: Seq<char>, n: int)
    requires
        0 <= n <= s.len(),
        unescaping(s.take(n)) is None,
    ensures
        unescaping(s) is None,
    decreases s.len() - n,
{
    if n < s.len() {
        assert(s.take(n + 1).drop_last() =~= s.take(n));
        lemma_unreadable_start(s, n + 1);
    } else {
        assert(s.take(n) =~= s);
    }
}

/// A name as it is typed.
pub fn escape_path_suffix(value: &[char]) -> (r: Vec<char>)
    ensures
        r@ == escaped(value@),
{
    let mut out: Vec<char> = Vec::new();
    let mut i: usize = 0;
    while i < value.len()
        invariant
            i <= value@.len(),
            out@ == escaped(value@.take(i as int)),
        decreases value.len() - i,
    {
        let c = value[i];
        assert(value@.take(i + 1).drop_last() =~= value@.take(i as int));
        if !Class::PathPlain.admits(c) {
            out.push('\\');
        }
        out.push(c);
        i += 1;
    }
    assert(value@.take(value@.len() as int) =~= value@);
    out
}

/// The path that the cursor stands behind: what the last argument of the buffer
/// stands for, unless it is an option.
pub open spec fn path_token(buffer: Seq<char>) -> Option<Seq<char>> {
    match argument_start(buffer) {
        Some(start) => match unescaped(buffer.skip(start)) {
            Some(token) => if token.len() > 0 && token[0] == '-' {
                None
            } else {
                Some(token)
            },
            None => None,
        },
        None => None,
    }
}

/// The length of a path up to and with its last slash.
pub open spec fn directory_length(token: Seq<char>) -> nat
    decreases token.len(),
{
    if token.len() == 0 || token.last() == '/' {
        token.len()
    } else {
        directory_length(token.drop_last())
    }
}

/// The part of a path that names a directory.
pub open spec fn directory_part(token: Seq<char>) -> Seq<char> {
    token.take(directory_length(token) as int)
}

/// The part of a path that an entry of the directory completes.
pub open spec fn name_part(token: Seq<char>) -> Seq<char> {
    token.skip(directory_length(token) as int)
}

fn directory_end(token: &[char]) -> (n: usize)
    ensures
        n == directory_length(token@),
        n <= token@.len(),
{
    let mut i: usize = token.len();
    assert(token@.take(token@.len() as int) =~= token@);
    while i > 0 && token[i - 1] != '/'
        invariant
            i <= token@.len(),
            directory_length(token@) == directory_length(token@.take(i as int)),
        decreases i,
    {
        assert(token@.take(i as int).drop_last() =~= token@.take(i - 1));
        i -= 1;
    }
    i
}

/// The path that the cursor at the end of a buffer stands behind.
fn token_at_cursor(buffer: &[char]) -> (r: Option<Vec<char>>)
    ensures
        match r {
            Some(t) => path_token(buffer@) == Some(t@),
            None => path_token(buffer@) is None,
        },
{
    let start: usize = match current_argument_start(buffer) {
        Some(i) => i,
        None => {
            return None;
        },
    };
    match unescape_path_token(from_index(buffer, start)) {
        Some(token) => {
            if token.len() > 0 && token[0] == '-' {
                None
            } else {
                Some(token)
            }
        },
        None => None,
    }
}

// ---------------------------------------------------------------------------
// The directory to look in
// ---------------------------------------------------------------------------

/// The directory that a path names, seen from the working directory; `~/`
/// stands for the home directory where there is one.
pub open spec fn resolved(
    directory: Seq<char>,
    cwd: Seq<char>,
    home: Option<Seq<u8>>,
) -> Seq<u8> {
    if text::starts_with(directory, "~/"@) {
        let base = match home {
            Some(h) => h,
            None => encode_utf8(cwd),
        };
        if directory == "~/"@ {
            base
        } else {
            paths::join(base, encode_utf8(directory.skip("~/"@.len() as int)))
        }
    } else {
        paths::join(encode_utf8(cwd), encode_utf8(directory))
    }
}

fn resolve_directory(directory: &[char], cwd: &str, home: Option<&Vec<u8>>) -> (r: Vec<u8>)
    ensures
        r@ == resolved(
            directory@,
            cwd@,
            match home {
                Some(h) => Some(h@),
                None => None,
            },
        ),
{
    if begins_with_str(directory, "~/") {
        let base = match home {
            Some(h) => h.as_slice(),
            None => cwd.as_bytes(),
        };
        if same_as(directory, "~/") {
            return bytes_of(base);
        }
        proof {
            reveal_strlit("~/");
        }
        let relative = text_of(from_index(directory, 2));
        return joined(base, relative.as_str().as_bytes());
    }
    let text = text_of(directory);
    joined(cwd.as_bytes(), text.as_str().as_bytes())
}

/// Whether the cursor stands behind a path that can be completed.
pub open spec fn completable(buffer: Seq<char>, cursor: nat, limit: nat) -> bool {
    limit > 0 && cursor == encode_utf8(buffer).len() && path_token(buffer) is Some
}

/// The directory whose entries complete the path under the cursor.
pub fn listed_directory(
    buffer: &str,
    cursor_byte: usize,
    cwd: &str,
    limit: usize,
    home: Option<&Vec<u8>>,
) -> (r: Option<Vec<u8>>)
    ensures
        match r {
            Some(d) => completable(buffer@, cursor_byte as nat, limit as nat) && d@ == resolved(
                directory_part(path_token(buffer@)->Some_0),
                cwd@,
                match home {
                    Some(h) => Some(h@),
                    None => None,
                },
            ),
            None => !completable(buffer@, cursor_byte as nat, limit as nat),
        },
{
    if limit == 0 || cursor_byte != buffer.as_bytes().len() {
        return None;
    }
    let all = chars_of(buffer);
    match token_at_cursor(all.as_slice()) {
        Some(token) => {
            let end: usize = directory_end(token.as_slice());
            Some(resolve_directory(up_to(token.as_slice(), end), cwd, home))
        },
        None => None,
    }
}

// ---------------------------------------------------------------------------
// The entries that complete it
// ---------------------------------------------------------------------------

/// What an entry of a directory is.
#[derive(Debug, Clone, Copy, PartialEq, Eq, Structural)]
pub enum EntryKind {
    Directory,
    File,
    SymlinkToDirectory,
    Symlink,
    Other,
}

/// An entry of a directory, as far as it could be read.
#[derive(Debug)]
pub struct DirectoryEntry {
    /// Its name, if that is UTF-8.
    pub name: Option<String>,
    /// What it is, if that could be found out.
    pub kind: Option<EntryKind>,
}

/// What an entry of a directory says.
pub struct EntryView {
    pub name: Option<Seq<char>>,
    pub kind: Option<EntryKind>,
}

impl DeepView for DirectoryEntry {
    type V = EntryView;

    open spec fn deep_view(&self) -> EntryView {
        EntryView {
            name: match self.name {
                Some(name) => Some(name@),
                None => None,
            },
            kind: self.kind,
        }
    }
}

/// An entry that completes a path.
pub struct PathView {
    pub is_directory: bool,
    pub name: Seq<char>,
    pub insert_text: Seq<char>,
    pub exact_file: bool,
}

/// A name that completes the beginning of one: hidden ones only behind a dot,
/// and none with control characters.
pub open spec fn admissible_name(name: Seq<char>, prefix: Seq<char>) -> bool {
    &&& name.len() > 0
    &&& name[0] == '.' ==> prefix.len() > 0 && prefix[0] == '.'
    &&& text::starts_with(name, prefix)
    &&& !text::some_in(name, Class::Control)
}

/// What completes the beginning of a name, before a lone blank stands in for
/// nothing.
pub open spec fn completing_text(
    token: Seq<char>,
    name: Seq<char>,
    is_directory: bool,
) -> Seq<char> {
    let rest = escaped(name.skip(name_part(token).len() as int));
    let led = if token.len() == 0 && name[0] == '-' {
        "./"@ + rest
    } else {
        rest
    };
    if is_directory {
        led.push('/')
    } else {
        led
    }
}

/// How an entry of the directory completes a path.
pub open spec fn path_match(token: Seq<char>, entry: Option<EntryView>) -> Option<PathView> {
    match entry {
        Some(EntryView { name: Some(name), kind: Some(kind) }) => if admissible_name(
            name,
            name_part(token),
        ) && !(kind is Other) {
            let is_directory = kind is Directory || kind is SymlinkToDirectory;
            let text = completing_text(token, name, is_directory);
            let exact_file = !is_directory && text.len() == 0;
            Some(
                PathView {
                    is_directory,
                    name,
                    insert_text: if exact_file {
                        seq![' ']
                    } else {
                        text
                    },
                    exact_file,
                },
            )
        } else {
            None
        },
        _ => None,
    }
}

pub open spec fn matcher(token: Seq<char>) -> spec_fn(Option<EntryView>) -> Option<PathView> {
    |entry: Option<EntryView>| path_match(token, entry)
}

/// Directories stand before files, and each in the order of their names.
pub open spec fn path_le(a: PathView, b: PathView) -> bool {
    if a.is_directory != b.is_directory {
        a.is_directory
    } else {
        order::text_le(a.name, b.name)
    }
}

pub open spec fn path_order() -> spec_fn(PathView, PathView) -> bool {
    |a: PathView, b: PathView| path_le(a, b)
}

/// The order of paths is total.
pub proof fn law_path_order()
    ensures
        crate::order::total(path_order()),
{
    let le = path_order();
    assert forall|a: PathView, b: PathView| #[trigger] le(a, b) || le(b, a) by {
        crate::order::law_text_order(a.name, b.name, a.name);
    }
    assert forall|a: PathView, b: PathView, c: PathView| #[trigger]
        le(a, b) && #[trigger] le(b, c) implies le(a, c) by {
        crate::order::law_text_order(a.name, b.name, c.name);
    }
}

/// The entries of a listing that complete a path, in order.
pub open spec fn path_matches(token: Seq<char>, listing: Seq<Option<EntryView>>) -> Seq<PathView> {
    order::ordered(listing.filter_map(matcher(token)), path_order())
}

/// The first entries of a listing.
pub open spec fn looked_at(listing: Seq<Option<EntryView>>) -> Seq<Option<EntryView>> {
    if listing.len() > MAX_DIRECTORY_ENTRIES {
        listing.take(MAX_DIRECTORY_ENTRIES as int)
    } else {
        listing
    }
}

/// The row of the menu for an entry that completes the end of a buffer.
pub open spec fn path_candidate(buffer: Seq<char>, m: PathView) -> CandidateView {
    CandidateView {
        display: if m.exact_file {
            buffer
        } else {
            buffer + m.insert_text
        },
        description: if m.is_directory {
            "Directory"@
        } else {
            "File"@
        },
        description_pending: false,
        kind: if m.is_directory {
            CandidateKind::Directory
        } else {
            CandidateKind::File
        },
        insert_text: m.insert_text,
        accept_text: segment::first_segment(m.insert_text),
        source: CandidateSource::Filesystem,
    }
}

pub open spec fn path_row(buffer: Seq<char>) -> spec_fn(PathView) -> CandidateView {
    |m: PathView| path_candidate(buffer, m)
}

/// The rows of the menu that a listing gives at the end of a buffer.
pub open spec fn path_candidates(
    buffer: Seq<char>,
    cursor: nat,
    listing: Option<Seq<Option<EntryView>>>,
    limit: nat,
) -> Seq<CandidateView> {
    if listing is Some && completable(buffer, cursor, limit) {
        let all = path_matches(path_token(buffer)->Some_0, looked_at(listing->Some_0));
        let shown = if all.len() > limit {
            all.take(limit as int)
        } else {
            all
        };
        shown.map_values(path_row(buffer))
    } else {
        Seq::empty()
    }
}

proof fn lemma_marks(s: Seq<char>)
    ensures
        match marks(s).start {
            Some(k) => 0 <= k <= s.len() && (unescaping(s.skip(k)) is Some ==> unescaping(
                s.skip(k),
            )->Some_0.escaped == marks(s).escaped),
            None => true,
        },
    decreases s.len(),
{
    if s.len() > 0 {
        let before = s.drop_last();
        lemma_marks(before);
        if marks(s).start is Some {
            let k = marks(s).start->Some_0;
            if k < s.len() {
                assert(s.skip(k).drop_last() =~= before.skip(k));
                assert(s.skip(k).last() == s.last());
            } else {
                assert(s.skip(k) =~= Seq::<char>::empty());
            }
        }
    }
}

/// A character that is typed as it is, and that leaves the argument open.
pub open spec fn plain_in_argument(c: char) -> bool {
    c != '\\' && !text::control(c) && !text::in_class(Class::ShellMeta, c) && !text::whitespace(c)
}

proof fn lemma_plain_step(s: Seq<char>, c: char)
    requires
        plain_in_argument(c),
    ensures
        !marks(s).escaped ==> marks(s.push(c)) == marks(s),
        unescaped(s) is Some ==> unescaped(s.push(c)) == Some(unescaped(s)->Some_0.push(c)),
{
    assert(s.push(c).drop_last() =~= s);
}

/// Accepting a candidate makes the argument the path of its entry: the
/// directory that was typed, the entry's name, and a slash behind a directory.
/// A name that starts like an option is led by `./`. Only a name with white
/// space outside ASCII does not stay one argument.
pub proof fn law_path_candidate_names_its_entry(buffer: Seq<char>, entry: EntryView)
    requires
        path_token(buffer) is Some,
        path_match(path_token(buffer)->Some_0, Some(entry)) is Some,
        !path_match(path_token(buffer)->Some_0, Some(entry))->Some_0.exact_file,
        forall|i: int|
            0 <= i < entry.name->Some_0.len() && text::whitespace(#[trigger] entry.name->Some_0[i])
                ==> entry.name->Some_0[i] < '\u{80}',
    ensures
        ({
            let token = path_token(buffer)->Some_0;
            let m = path_match(token, Some(entry))->Some_0;
            let lead = if token.len() == 0 && m.name[0] == '-' {
                "./"@
            } else {
                Seq::empty()
            };
            let tail = if m.is_directory {
                seq!['/']
            } else {
                Seq::empty()
            };
            &&& m.name == entry.name->Some_0
            &&& path_token(buffer + m.insert_text) == Some(
                lead + directory_part(token) + m.name + tail,
            )
        }),
{
    let token = path_token(buffer)->Some_0;
    let m = path_match(token, Some(entry))->Some_0;
    let start = argument_start(buffer)->Some_0;
    let name = m.name;
    let prefix = name_part(token);
    let rest = name.skip(prefix.len() as int);
    lemma_marks(buffer);
    lemma_directory_length(token);
    assert(!marks(buffer).escaped);
    let led = token.len() == 0 && name[0] == '-';
    let lead = if led {
        "./"@
    } else {
        Seq::<char>::empty()
    };
    let base = buffer + lead;
    let argument = buffer.skip(start) + lead;
    reveal_strlit("./");
    if led {
        assert(base =~= buffer.push('.').push('/'));
        assert(argument =~= buffer.skip(start).push('.').push('/'));
        lemma_plain_step(buffer, '.');
        lemma_plain_step(buffer.push('.'), '/');
        lemma_plain_step(buffer.skip(start), '.');
        lemma_plain_step(buffer.skip(start).push('.'), '/');
        assert(token.push('.').push('/') =~= lead + token);
    } else {
        assert(base =~= buffer);
        assert(argument =~= buffer.skip(start));
        assert(lead + token =~= token);
    }
    assert(marks(base) == marks(buffer));
    assert(unescaped(argument) == Some(lead + token));
    assert forall|i: int| 0 <= i < rest.len() implies (text::whitespace(#[trigger] rest[i]) ==> rest[i]
        < '\u{80}') && !text::control(rest[i]) by {
        assert(rest[i] == name[prefix.len() + i]);
        assert(!text::in_class(Class::Control, name[prefix.len() + i]));
    }
    law_escaped_name_stays_in_argument(base, rest);
    law_escaped_name_reads_back(argument, rest);
    let typed = base + escaped(rest);
    let read = argument + escaped(rest);
    assert(name.take(prefix.len() as int) == prefix);
    assert(prefix + rest =~= name);
    assert(directory_part(token) + prefix =~= token);
    assert(lead + token + rest =~= lead + directory_part(token) + name);
    let tail = if m.is_directory {
        seq!['/']
    } else {
        Seq::<char>::empty()
    };
    if m.is_directory {
        lemma_plain_step(typed, '/');
        lemma_plain_step(read, '/');
        assert(buffer + m.insert_text =~= typed.push('/'));
        assert((buffer + m.insert_text).skip(start) =~= read.push('/'));
        assert((lead + token + rest).push('/') =~= lead + directory_part(token) + name + tail);
    } else {
        assert(buffer + m.insert_text =~= typed);
        assert((buffer + m.insert_text).skip(start) =~= read);
        assert(lead + token + rest =~= lead + directory_part(token) + name + tail);
    }
    let named = lead + directory_part(token) + name + tail;
    assert(named[0] != '-') by {
        if token.len() > 0 {
            assert(named =~= lead + token + rest + tail);
            assert(named[0] == token[0]);
        } else if !led {
            assert(directory_part(token) =~= Seq::<char>::empty());
            assert(named[0] == name[0]);
        } else {
            assert(named[0] == '.');
        }
    }
}

proof fn lemma_directory_length(token: Seq<char>)
    ensures
        directory_length(token) <= token.len(),
    decreases token.len(),
{
    if token.len() > 0 && token.last() != '/' {
        lemma_directory_length(token.drop_last());
    }
}

/// There are at most `limit` paths among the candidates; each comes from the
/// file system, and what a key press accepts of one starts what it inserts.
pub proof fn law_path_candidates(
    buffer: Seq<char>,
    cursor: nat,
    listing: Option<Seq<Option<EntryView>>>,
    limit: nat,
)
    ensures
        ({
            let rows = path_candidates(buffer, cursor, listing, limit);
            &&& rows.len() <= limit
            &&& forall|i: int|
                0 <= i < rows.len() ==> {
                    let row = #[trigger] rows[i];
                    &&& row.source == CandidateSource::Filesystem
                    &&& text::starts_with(row.insert_text, row.accept_text)
                    &&& row.display == buffer || row.display == buffer + row.insert_text
                }
        }),
{
    let rows = path_candidates(buffer, cursor, listing, limit);
    assert forall|i: int| 0 <= i < rows.len() implies text::starts_with(
        (#[trigger] rows[i]).insert_text,
        rows[i].accept_text,
    ) by {
        crate::engine::segment::law_segment_is_a_prefix(rows[i].insert_text);
    }
}

struct PathMatch {
    is_directory: bool,
    name: String,
    insert_text: String,
    exact_file: bool,
}

impl DeepView for PathMatch {
    type V = PathView;

    closed spec fn deep_view(&self) -> PathView {
        PathView {
            is_directory: self.is_directory,
            name: self.name@,
            insert_text: self.insert_text@,
            exact_file: self.exact_file,
        }
    }
}

fn match_entry(token: &[char], prefix: &[char], entry: &Option<DirectoryEntry>) -> (r: Option<
    PathMatch,
>)
    requires
        prefix@ == name_part(token@),
    ensures
        r.deep_view() == path_match(token@, entry.deep_view()),
{
    let (name, kind) = match entry {
        Some(DirectoryEntry { name: Some(name), kind: Some(kind) }) => (name, *kind),
        _ => {
            return None;
        },
    };
    let all = chars_of(name.as_str());
    let chars = all.as_slice();
    if chars.len() == 0 {
        return None;
    }
    if chars[0] == '.' && !(prefix.len() > 0 && prefix[0] == '.') {
        return None;
    }
    if !begins_with(chars, prefix) || has_some(chars, Class::Control) {
        return None;
    }
    let is_directory = match kind {
        EntryKind::Directory | EntryKind::SymlinkToDirectory => true,
        EntryKind::File | EntryKind::Symlink => false,
        EntryKind::Other => {
            return None;
        },
    };
    let mut text = String::new();
    if token.len() == 0 && chars[0] == '-' {
        push_str(&mut text, "./");
    }
    let rest = escape_path_suffix(from_index(chars, prefix.len()));
    push_all(&mut text, rest.as_slice());
    if is_directory {
        text.push('/');
    }
    assert(text@ =~= completing_text(token@, name@, is_directory));
    let exact_file = !is_directory && text.as_str().as_bytes().len() == 0;
    proof {
        crate::text::lemma_empty_bytes(text@);
    }
    if exact_file {
        text.push(' ');
        assert(text@ =~= seq![' ']);
    }
    Some(PathMatch { is_directory, name: name.clone(), insert_text: text, exact_file })
}

/// Puts an entry in its place.
fn place(list: &mut Vec<PathMatch>, m: PathMatch)
    ensures
        final(list).deep_view() == order::insert_ordered(
            old(list).deep_view(),
            m.deep_view(),
            path_order(),
        ),
{
    let ghost before = list.deep_view();
    let ghost x = m.deep_view();
    let mut i: usize = 0;
    while i < list.len() && path_in_order(&list[i], &m)
        invariant
            i <= list@.len(),
            list.deep_view() == before,
            x == m.deep_view(),
            forall|j: int| 0 <= j < i ==> path_order()(#[trigger] before[j], x),
        decreases list.len() - i,
    {
        assert(before[i as int] == list@[i as int].deep_view());
        i += 1;
    }
    proof {
        if i < list@.len() {
            assert(before[i as int] == list@[i as int].deep_view());
        }
        order::lemma_rank_is(before, x, path_order(), i as nat);
    }
    list.insert(i, m);
    assert(list.deep_view() =~= before.insert(i as int, x));
}

fn path_in_order(a: &PathMatch, b: &PathMatch) -> (r: bool)
    ensures
        r == path_le(a.deep_view(), b.deep_view()),
{
    if a.is_directory != b.is_directory {
        a.is_directory
    } else {
        in_text_order(a.name.as_str(), b.name.as_str())
    }
}

/// The rows of the menu that the entries of the listed directory give: at most
/// `limit` of them, directories first, each in the order of their names.
pub fn filesystem_candidates(
    buffer: &str,
    cursor_byte: usize,
    listing: Option<&Vec<Option<DirectoryEntry>>>,
    limit: usize,
) -> (r: Result<Vec<Candidate>, EngineError>)
    ensures
        r is Ok,
        r->Ok_0.deep_view() == path_candidates(
            buffer@,
            cursor_byte as nat,
            match listing {
                Some(l) => Some(l.deep_view()),
                None => None,
            },
            limit as nat,
        ),
{
    let mut rows: Vec<Candidate> = Vec::new();
    assert(rows.deep_view() =~= Seq::<CandidateView>::empty());
    if limit == 0 || cursor_byte != buffer.as_bytes().len() {
        return Ok(rows);
    }
    let all = chars_of(buffer);
    let token = match token_at_cursor(all.as_slice()) {
        Some(token) => token,
        None => {
            return Ok(rows);
        },
    };
    let entries = match listing {
        Some(entries) => entries,
        None => {
            return Ok(rows);
        },
    };
    let prefix = from_index(token.as_slice(), directory_end(token.as_slice()));
    let count: usize = if entries.len() > MAX_DIRECTORY_ENTRIES {
        MAX_DIRECTORY_ENTRIES
    } else {
        entries.len()
    };
    let ghost shown = looked_at(entries.deep_view());
    let ghost pick = matcher(token@);
    assert(shown =~= entries.deep_view().take(count as int));
    let mut matches: Vec<PathMatch> = Vec::new();
    let mut i: usize = 0;
    proof {
        reveal(Seq::filter_map);
        assert(shown.take(0).filter_map(pick) =~= Seq::<PathView>::empty());
        assert(matches.deep_view() =~= Seq::<PathView>::empty());
    }
    while i < count
        invariant
            i <= count,
            count == shown.len(),
            count <= entries@.len(),
            shown == entries.deep_view().take(count as int),
            pick == matcher(token@),
            prefix@ == name_part(token@),
            matches.deep_view() == path_matches(token@, shown.take(i as int)),
        decreases count - i,
    {
        let ghost found = shown.take(i as int).filter_map(pick);
        proof {
            shown.lemma_filter_map_take_succ(pick, i as int);
            assert(shown[i as int] == entries@[i as int].deep_view());
        }
        if let Some(m) = match_entry(token.as_slice(), prefix, &entries[i]) {
            assert(found.push(m.deep_view()).drop_last() =~= found);
            place(&mut matches, m);
            assert(shown.take(i + 1).filter_map(pick) =~= found.push(
                pick(shown[i as int])->Some_0,
            ));
        } else {
            assert(shown.take(i + 1).filter_map(pick) =~= found);
        }
        i += 1;
    }
    assert(shown.take(count as int) =~= shown);
    let ghost best = matches.deep_view();
    let total: usize = if matches.len() > limit {
        limit
    } else {
        matches.len()
    };
    i = 0;
    while i < total
        invariant
            i <= total,
            total <= matches@.len(),
            best == matches.deep_view(),
            rows.deep_view() == best.take(i as int).map_values(path_row(buffer@)),
        decreases total - i,
    {
        let ghost before = rows.deep_view();
        let m = &matches[i];
        let row = path_row_of(buffer, m);
        assert(m.deep_view() == best[i as int]);
        rows.push(row);
        assert(rows.deep_view() =~= before.push(row.deep_view()));
        assert(best.take(i + 1).map_values(path_row(buffer@)) =~= before.push(row.deep_view()));
        i += 1;
    }
    assert(best.take(best.len() as int) =~= best);
    Ok(rows)
}

fn path_row_of(buffer: &str, m: &PathMatch) -> (r: Candidate)
    ensures
        r.deep_view() == path_candidate(buffer@, m.deep_view()),
{
    let mut display = String::new();
    push_str(&mut display, buffer);
    if !m.exact_file {
        push_str(&mut display, m.insert_text.as_str());
    }
    let mut description = String::new();
    push_str(&mut description, if m.is_directory { "Directory" } else { "File" });
    let r = Candidate {
        display,
        description,
        description_pending: false,
        kind: if m.is_directory {
            CandidateKind::Directory
        } else {
            CandidateKind::File
        },
        insert_text: m.insert_text.clone(),
        accept_text: next_segment(m.insert_text.as_str()),
        source: CandidateSource::Filesystem,
    };
    assert(r.deep_view().display =~= path_candidate(buffer@, m.deep_view()).display);
    assert(r.deep_view().description =~= path_candidate(buffer@, m.deep_view()).description);
    r
}

} // verus!
