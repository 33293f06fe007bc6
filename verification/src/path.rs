//! File names: the last part of a path, the directories of a search path,
//! and the choice of a program among the entries of those directories.

use crate::text::{chars_of, lemma_run_len_unique, run_len, same_text, string_of};
use vstd::prelude::*;
use vstd::string::StringExecFns;

verus! {

/// The place of the last `/` in `path`, or -1 where there is none.
pub open spec fn last_slash(path: Seq<char>) -> int
    decreases path.len(),
{
    if path.len() == 0 {
        -1
    } else if path.last() == '/' {
        path.len() - 1
    } else {
        last_slash(path.drop_last())
    }
}

/// What follows the last `/` of `path`; all of `path` where it has none.
pub open spec fn basename_of(path: Seq<char>) -> Seq<char> {
    path.skip(last_slash(path) + 1)
}

/// The last slash is a slash, and none comes after it.
pub proof fn lemma_last_slash(path: Seq<char>)
    ensures
        -1 <= last_slash(path) < path.len(),
        last_slash(path) >= 0 ==> path[last_slash(path)] == '/',
        forall|k: int| last_slash(path) < k < path.len() ==> #[trigger] path[k] != '/',
    decreases path.len(),
{
    if path.len() > 0 && path.last() != '/' {
        let front = path.drop_last();
        lemma_last_slash(front);
        assert forall|k: int| last_slash(path) < k < path.len() implies #[trigger] path[k]
            != '/' by {
            if k < front.len() {
                assert(front[k] == path[k]);
            }
        }
    }
}

/// The last part of `path`: what follows its last `/`.
pub fn basename(path: &str) -> (name: String)
    ensures
        name@ == basename_of(path@),
{
    let chars = chars_of(path);
    let mut i = chars.len();
    assert(chars@.take(i as int) =~= chars@);
    while i > 0 && chars[i - 1] != '/'
        invariant
            i <= chars.len(),
            last_slash(chars@) == last_slash(chars@.take(i as int)),
        decreases i,
    {
        assert(chars@.take(i as int).drop_last() =~= chars@.take(i - 1));
        i -= 1;
    }
    proof {
        let front = chars@.take(i as int);
        if i > 0 {
            assert(front.last() == chars@[i - 1]);
        }
        assert(last_slash(front) == i - 1);
        assert(chars@.subrange(i as int, chars.len() as int) =~= chars@.skip(i as int));
    }
    string_of(&chars, i, chars.len())
}

pub open spec fn other_than(separator: char) -> spec_fn(char) -> bool {
    |c: char| c != separator
}

/// The pieces of `s` between each two occurrences of `separator`, the empty
/// ones too. There is always at least one piece.
pub open spec fn split(s: Seq<char>, separator: char) -> Seq<Seq<char>>
    decreases s.len(),
    via split_decreases
{
    let n = run_len(s, other_than(separator)) as int;
    if n >= s.len() {
        seq![s]
    } else {
        seq![s.take(n)] + split(s.skip(n + 1), separator)
    }
}

#[via_fn]
proof fn split_decreases(s: Seq<char>, separator: char) {
}

/// The pieces of `text` between each two occurrences of `separator`.
pub fn split_text(text: &str, separator: char) -> (directories: Vec<String>)
    ensures
        directories@.map_values(|d: String| d@) == split(text@, separator),
{
    let chars = chars_of(text);
    let mut directories: Vec<String> = Vec::new();
    let mut start: usize = 0;
    let mut i: usize = 0;
    assert(chars@.skip(0) =~= chars@);
    assert(directories@.map_values(|d: String| d@) + split(chars@, separator) =~= split(chars@, separator));
    while i < chars.len()
        invariant
            start <= i <= chars.len(),
            forall|k: int| start <= k < i ==> #[trigger] chars@[k] != separator,
            split(text@, separator) == directories@.map_values(|d: String| d@) + split(
                chars@.skip(start as int),
                separator,
            ),
            chars@ == text@,
        decreases chars.len() - i,
    {
        if chars[i] == separator {
            let piece = string_of(&chars, start, i);
            proof {
                let s = chars@.skip(start as int);
                let n = (i - start) as nat;
                assert forall|k: int| 0 <= k < n implies other_than(separator)(#[trigger] s[k]) by {
                    assert(s[k] == chars@[start + k]);
                }
                assert(s[n as int] == chars@[i as int]);
                lemma_run_len_unique(s, other_than(separator), n);
                assert(s.take(n as int) =~= chars@.subrange(start as int, i as int));
                assert(s.skip(n as int + 1) =~= chars@.skip(i + 1));
                assert(directories@.push(piece).map_values(|d: String| d@)
                    =~= directories@.map_values(|d: String| d@).push(piece@));
                assert(directories@.map_values(|d: String| d@) + (seq![piece@] + split(
                    chars@.skip(i + 1),
                    separator,
                )) =~= directories@.map_values(|d: String| d@).push(piece@) + split(
                    chars@.skip(i + 1),
                    separator,
                ));
            }
            directories.push(piece);
            start = i + 1;
        }
        i += 1;
    }
    let piece = string_of(&chars, start, chars.len());
    proof {
        let s = chars@.skip(start as int);
        let n = (chars.len() - start) as nat;
        assert forall|k: int| 0 <= k < n implies other_than(separator)(#[trigger] s[k]) by {
            assert(s[k] == chars@[start + k]);
        }
        lemma_run_len_unique(s, other_than(separator), n);
        assert(s =~= chars@.subrange(start as int, chars.len() as int));
        assert(directories@.push(piece).map_values(|d: String| d@) =~= directories@.map_values(
            |d: String| d@,
        ) + seq![s]);
    }
    directories.push(piece);
    directories
}

/// The directories that a search path names: its pieces between colons.
pub fn split_path(search_path: &str) -> (directories: Vec<String>)
    ensures
        directories@.map_values(|d: String| d@) == split(search_path@, ':'),
{
    split_text(search_path, ':')
}

/// One entry of a directory, as far as the search for a program reads it.
#[derive(Debug)]
pub struct PathEntry {
    /// The file's name within its directory.
    pub name: String,
    /// The permission bits, or `None` where they could not be read.
    pub mode: Option<u32>,
    /// The file's full path.
    pub path: String,
}

/// Whether at least one of the three execute bits is set in `mode`.
pub open spec fn is_executable(mode: u32) -> bool {
    mode & 0o111 != 0
}

/// Whether `entry` is the file looked for: it has the name, and, where
/// `exec` asks for a program, its permissions are known and let somebody
/// execute it.
pub open spec fn entry_matches(entry: PathEntry, filename: Seq<char>, exec: bool) -> bool {
    entry.name@ == filename && (exec ==> entry.mode is Some && is_executable(entry.mode->0))
}

/// Whether `pos` is the place of the first entry that matches.
pub open spec fn is_first_match(
    entries: Seq<PathEntry>,
    filename: Seq<char>,
    exec: bool,
    pos: int,
) -> bool {
    &&& 0 <= pos < entries.len()
    &&& entry_matches(entries[pos], filename, exec)
    &&& forall|k: int| 0 <= k < pos ==> !entry_matches(#[trigger] entries[k], filename, exec)
}

/// The path of the first entry of `entries` that matches, if one does.
pub open spec fn found_in(entries: Seq<PathEntry>, filename: Seq<char>, exec: bool) -> Option<
    Seq<char>,
> {
    if exists|pos: int| is_first_match(entries, filename, exec, pos) {
        Some(entries[choose|pos: int| is_first_match(entries, filename, exec, pos)].path@)
    } else {
        None
    }
}

/// The path of the first match in the first directory that has one; the
/// empty text where none has.
pub open spec fn found(directories: Seq<Vec<PathEntry>>, filename: Seq<char>, exec: bool) -> Seq<
    char,
>
    decreases directories.len(),
{
    if directories.len() == 0 {
        Seq::empty()
    } else {
        match found_in(directories[0]@, filename, exec) {
            Some(path) => path,
            None => found(directories.skip(1), filename, exec),
        }
    }
}

/// Looks for `filename` among the entries of one directory.
pub fn find_in_directory(filename: &str, exec: bool, entries: &Vec<PathEntry>) -> (path: Option<
    String,
>)
    ensures
        match path {
            Some(path) => found_in(entries@, filename@, exec) == Some(path@),
            None => found_in(entries@, filename@, exec) is None,
        },
{
    let mut i: usize = 0;
    while i < entries.len()
        invariant
            i <= entries.len(),
            forall|k: int| 0 <= k < i ==> !entry_matches(#[trigger] entries@[k], filename@, exec),
        decreases entries.len() - i,
    {
        if same_text(entries[i].name.as_str(), filename) {
            let usable = if exec {
                match entries[i].mode {
                    Some(mode) => mode & 0o111 != 0,
                    None => false,
                }
            } else {
                true
            };
            if usable {
                proof {
                    assert(is_first_match(entries@, filename@, exec, i as int));
                    let chosen = choose|pos: int| is_first_match(entries@, filename@, exec, pos);
                    if chosen < i {
                        assert(!entry_matches(entries@[chosen], filename@, exec));
                    } else if chosen > i {
                        assert(!entry_matches(entries@[i as int], filename@, exec));
                    }
                }
                return Some(entries[i].path.clone());
            }
        }
        i += 1;
    }
    proof {
        if exists|pos: int| is_first_match(entries@, filename@, exec, pos) {
            let pos = choose|pos: int| is_first_match(entries@, filename@, exec, pos);
            assert(!entry_matches(entries@[pos], filename@, exec));
        }
    }
    None
}

/// Looks for `filename` in the directories of the search path, which are
/// given by their entries and in the order of the search path. Returns the
/// full path of the first match, or the empty string.
pub fn find_file_in_path(filename: &str, exec: bool, directories: &Vec<Vec<PathEntry>>) -> (path:
    String)
    ensures
        path@ == found(directories@, filename@, exec),
{
    let mut i: usize = 0;
    assert(directories@.skip(0) =~= directories@);
    while i < directories.len()
        invariant
            i <= directories.len(),
            found(directories@, filename@, exec) == found(
                directories@.skip(i as int),
                filename@,
                exec,
            ),
        decreases directories.len() - i,
    {
        assert(directories@.skip(i as int)[0] == directories@[i as int]);
        assert(directories@.skip(i as int).skip(1) =~= directories@.skip(i + 1));
        match find_in_directory(filename, exec, &directories[i]) {
            Some(path) => {
                return path;
            },
            None => {},
        }
        i += 1;
    }
    String::new()
}

/// What `shellexpand::tilde` can make of `input`. A text that does not start
/// with `~` alone or `~` and a separator stays as it is. Otherwise the `~` is
/// replaced by the home directory, whatever that is, or the text stays as it
/// is where no home directory is known.
pub open spec fn tilde_result(input: Seq<char>, output: Seq<char>) -> bool {
    if input.len() > 0 && input[0] == '~' && (input.len() == 1 || input[1] == '/' || input[1]
        == '\\') {
        output == input || (output.len() + 1 >= input.len() && output.skip(
            output.len() + 1 - input.len(),
        ) == input.skip(1))
    } else {
        output == input
    }
}

/// `shellexpand::tilde` on `path`. The home directory comes from the
/// environment, so only [`tilde_result`] is claimed.
#[verifier::external_body]
pub(crate) fn tilde(path: &str) -> (expanded: String)
    ensures
        tilde_result(path@, expanded@),
{
    shellexpand::tilde(path).into_owned()
}


/// `base` with `part` appended as a path: `part` alone where it is absolute or
/// `base` is empty, and otherwise the two with one `/` between them.
pub open spec fn joined_path(base: Seq<char>, part: Seq<char>) -> Seq<char> {
    if base.len() == 0 || (part.len() > 0 && part[0] == '/') {
        part
    } else if base.last() == '/' {
        base + part
    } else {
        base + seq!['/'] + part
    }
}

/// `base` with `part` appended as a path.
pub fn join_path(base: &str, part: &str) -> (path: String)
    ensures
        path@ == joined_path(base@, part@),
{
    let head = chars_of(base);
    let tail = chars_of(part);
    if head.len() == 0 || (tail.len() > 0 && tail[0] == '/') {
        return part.to_owned();
    }
    let mut path = base.to_owned();
    if head[head.len() - 1] != '/' {
        path.push('/');
    }
    path.append(part);
    assert(path@ =~= joined_path(base@, part@));
    path
}

} // verus!
