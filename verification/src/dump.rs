//! Reading the variables that a theme script leaves behind. The script's
//! environment is printed first, then a line that ends it, then every
//! variable of the script; a variable that stands in the first part belongs
//! to the environment, any other to the shell alone.

use crate::assignment::{definition_of, parse_var_definition};
use crate::path::{split, split_text};
use crate::text::{chars_of, same_text, string_of};
use crate::variable::Variable;
use vstd::prelude::*;
use vstd::string::StringExecFns;

verus! {

/// The line that ends the environment's part.
pub open spec fn end_of_environment() -> Seq<char> {
    "---ENV_VAR_END---"@
}

/// A piece of text between line feeds, without the carriage return at its
/// end.
pub open spec fn line_of(piece: Seq<char>) -> Seq<char> {
    if piece.len() > 0 && piece.last() == '\r' {
        piece.drop_last()
    } else {
        piece
    }
}

/// The lines of `text`.
pub open spec fn lines_of(text: Seq<char>) -> Seq<Seq<char>> {
    split(text, '\n').map_values(|piece: Seq<char>| line_of(piece))
}

pub open spec fn is_ascii_letter(c: char) -> bool {
    ('a' <= c <= 'z') || ('A' <= c <= 'Z')
}

/// Where the reading stands after some lines.
pub struct Scan {
    /// The definition being read, which may go on over several lines.
    pub pending: Seq<char>,
    /// Whether the lines read so far belong to the environment's part.
    pub in_environment: bool,
    /// The names defined in the environment's part.
    pub exported: Set<Seq<char>>,
    /// Every name defined so far with its last value.
    pub values: Map<Seq<char>, Seq<char>>,
}

pub open spec fn start() -> Scan {
    Scan { pending: Seq::empty(), in_environment: true, exported: Set::empty(), values: Map::empty() }
}

/// `scan` after the pending definition has been taken in, if there is one
/// and it has the form `NAME=VALUE`.
pub open spec fn flushed(scan: Scan) -> Scan {
    if scan.pending.len() > 0 && definition_of(scan.pending) is Some {
        let definition = definition_of(scan.pending)->0;
        Scan {
            exported: if scan.in_environment {
                scan.exported.insert(definition.0)
            } else {
                scan.exported
            },
            values: scan.values.insert(definition.0, definition.1),
            ..scan
        }
    } else {
        scan
    }
}

/// `scan` after one more line. An empty line counts for nothing. A line
/// that starts with a letter starts a definition, and the one before it is
/// taken in. Any other line goes on with the pending definition, after a
/// line feed.
pub open spec fn after_line(scan: Scan, line: Seq<char>) -> Scan {
    if line.len() == 0 {
        scan
    } else if line == end_of_environment() {
        Scan { in_environment: false, ..scan }
    } else if is_ascii_letter(line[0]) {
        Scan { pending: line, ..flushed(scan) }
    } else if scan.pending.len() > 0 {
        Scan { pending: scan.pending + seq!['\n'] + line, ..scan }
    } else {
        scan
    }
}

/// `scan` after all of `lines`, in order.
pub open spec fn after_lines(scan: Scan, lines: Seq<Seq<char>>) -> Scan
    decreases lines.len(),
{
    if lines.len() == 0 {
        scan
    } else {
        after_line(after_lines(scan, lines.drop_last()), lines.last())
    }
}

/// What a dump defines: the state after its last line, with the last
/// definition taken in.
pub open spec fn dumped(text: Seq<char>) -> Scan {
    flushed(after_lines(start(), lines_of(text)))
}

/// One variable of a dump.
#[derive(Debug)]
pub struct ThemeVariable {
    pub name: String,
    pub value: String,
    /// Whether the variable belongs to the environment.
    pub exported: bool,
}

/// Whether `name` is one of `names`.
pub open spec fn listed(names: Seq<String>, name: Seq<char>) -> bool {
    exists|i: int| 0 <= i < names.len() && (#[trigger] names[i])@ == name
}

/// The texts of `names` as a set.
pub open spec fn name_set(names: Seq<String>) -> Set<Seq<char>> {
    Set::new(|name: Seq<char>| listed(names, name))
}

/// A list with one more name is the set with that name put in.
proof fn lemma_name_set_push(names: Seq<String>, next: String)
    ensures
        name_set(names.push(next)) == name_set(names).insert(next@),
{
    let longer = names.push(next);
    assert forall|name: Seq<char>|
        name_set(longer).contains(name) == name_set(names).insert(next@).contains(name) by {
        if listed(longer, name) {
            let i = choose|i: int| 0 <= i < longer.len() && (#[trigger] longer[i])@ == name;
            if i < names.len() {
                assert(names[i]@ == name);
            }
        }
        if listed(names, name) {
            let i = choose|i: int| 0 <= i < names.len() && (#[trigger] names[i])@ == name;
            assert(longer[i]@ == name);
        }
        if name == next@ {
            assert(longer[names.len() as int]@ == name);
        }
    }
    assert(name_set(longer) =~= name_set(names).insert(next@));
}

fn is_listed(names: &Vec<String>, name: &String) -> (found: bool)
    ensures
        found == listed(names@, name@),
{
    let mut i: usize = 0;
    while i < names.len()
        invariant
            i <= names.len(),
            forall|k: int| 0 <= k < i ==> (#[trigger] names@[k])@ != name@,
        decreases names.len() - i,
    {
        if names[i] == *name {
            return true;
        }
        i += 1;
    }
    false
}

/// The reading in progress.
struct Reader {
    pending: String,
    in_environment: bool,
    exported: Vec<String>,
    values: Variable,
}

impl Reader {
    spec fn scan(&self) -> Scan {
        Scan {
            pending: self.pending@,
            in_environment: self.in_environment,
            exported: name_set(self.exported@),
            values: self.values@,
        }
    }

    fn flush(&mut self)
        ensures
            final(self).scan() == flushed(old(self).scan()),
    {
        if self.pending.as_str().unicode_len() > 0 {
            match parse_var_definition(self.pending.as_str()) {
                Some(definition) => {
                    if self.in_environment {
                        let name = definition.0.clone();
                        proof {
                            lemma_name_set_push(self.exported@, name);
                        }
                        self.exported.push(name);
                    }
                    self.values.set(definition.0, definition.1);
                },
                None => {},
            }
        }
    }

    fn take_line(&mut self, line: &str)
        ensures
            final(self).scan() == after_line(old(self).scan(), line@),
    {
        let chars = chars_of(line);
        if chars.len() == 0 {
            return ;
        }
        if same_text(line, "---ENV_VAR_END---") {
            self.in_environment = false;
            return ;
        }
        let c = chars[0];
        if (c >= 'a' && c <= 'z') || (c >= 'A' && c <= 'Z') {
            self.flush();
            self.pending = line.to_owned();
        } else if self.pending.as_str().unicode_len() > 0 {
            self.pending.push('\n');
            self.pending.append(line);
            assert(self.pending@ =~= old(self).pending@ + seq!['\n'] + line@);
        }
    }
}

/// `piece` without the carriage return at its end.
fn without_carriage_return(piece: &str) -> (line: String)
    ensures
        line@ == line_of(piece@),
{
    let chars = chars_of(piece);
    if chars.len() > 0 && chars[chars.len() - 1] == '\r' {
        assert(chars@.subrange(0, chars.len() - 1) =~= chars@.drop_last());
        string_of(&chars, 0, chars.len() - 1)
    } else {
        piece.to_owned()
    }
}

/// Whether `variables` are what `scan` holds: each name once, with its
/// value and with whether it belongs to the environment.
pub open spec fn holds(variables: Seq<ThemeVariable>, scan: Scan) -> bool {
    &&& forall|i: int, j: int|
        0 <= i < variables.len() && 0 <= j < variables.len() && (#[trigger] variables[i]).name@
            == (#[trigger] variables[j]).name@ ==> i == j
    &&& forall|i: int|
        0 <= i < variables.len() ==> {
            &&& scan.values.contains_key((#[trigger] variables[i]).name@)
            &&& scan.values[variables[i].name@] == variables[i].value@
            &&& variables[i].exported == scan.exported.contains(variables[i].name@)
        }
    &&& forall|name: Seq<char>|
        scan.values.contains_key(name) ==> exists|i: int|
            0 <= i < variables.len() && (#[trigger] variables[i]).name@ == name
}

/// Reads the variables out of `text`, the output of a theme script.
pub fn parse_variable_dump(text: &str) -> (variables: Vec<ThemeVariable>)
    ensures
        holds(variables@, dumped(text@)),
{
    let pieces = split_text(text, '\n');
    let mut reader = Reader {
        pending: String::new(),
        in_environment: true,
        exported: Vec::new(),
        values: Variable::new(),
    };
    assert(reader.scan().exported =~= Set::<Seq<char>>::empty());
    let ghost lines = lines_of(text@);
    let mut i: usize = 0;
    assert(lines.take(0) =~= Seq::<Seq<char>>::empty());
    while i < pieces.len()
        invariant
            i <= pieces.len(),
            lines == lines_of(text@),
            pieces@.map_values(|d: String| d@) == split(text@, '\n'),
            reader.scan() == after_lines(start(), lines.take(i as int)),
        decreases pieces.len() - i,
    {
        let line = without_carriage_return(pieces[i].as_str());
        proof {
            assert(lines.take(i + 1).drop_last() =~= lines.take(i as int));
            assert(pieces@.map_values(|d: String| d@)[i as int] == pieces@[i as int]@);
            assert(lines.take(i + 1).last() == line@);
        }
        reader.take_line(line.as_str());
        i += 1;
    }
    assert(lines.take(pieces.len() as int) =~= lines);
    reader.flush();
    let all = reader.values.get_all();
    let ghost scan = reader.scan();
    let ghost pairs = reader.values.pairs();
    let mut variables: Vec<ThemeVariable> = Vec::new();
    let mut k: usize = 0;
    while k < all.len()
        invariant
            k <= all.len(),
            all@.map_values(|e: (String, String)| (e.0@, e.1@)) == pairs,
            scan == reader.scan(),
            variables@.len() == k,
            forall|m: int|
                0 <= m < k ==> {
                    &&& (#[trigger] variables@[m]).name@ == pairs[m].0
                    &&& variables@[m].value@ == pairs[m].1
                    &&& variables@[m].exported == scan.exported.contains(pairs[m].0)
                },
        decreases all.len() - k,
    {
        assert(pairs[k as int] == (all@[k as int].0@, all@[k as int].1@));
        let exported = is_listed(&reader.exported, &all[k].0);
        variables.push(
            ThemeVariable { name: all[k].0.clone(), value: all[k].1.clone(), exported },
        );
        k += 1;
    }
    proof {
        lemma_pairs_hold(variables@, pairs, scan);
    }
    variables
}

/// Variables that follow a list of distinct pairs one for one are what the
/// map of those pairs holds.
proof fn lemma_pairs_hold(
    variables: Seq<ThemeVariable>,
    pairs: Seq<(Seq<char>, Seq<char>)>,
    scan: Scan,
)
    requires
        crate::variable::distinct_names(pairs),
        scan.values == crate::variable::bindings(pairs),
        variables.len() == pairs.len(),
        forall|m: int|
            0 <= m < pairs.len() ==> {
                &&& (#[trigger] variables[m]).name@ == pairs[m].0
                &&& variables[m].value@ == pairs[m].1
                &&& variables[m].exported == scan.exported.contains(pairs[m].0)
            },
    ensures
        holds(variables, scan),
{
    assert forall|i: int, j: int|
        0 <= i < variables.len() && 0 <= j < variables.len() && (#[trigger] variables[i]).name@
            == (#[trigger] variables[j]).name@ implies i == j by {
        assert(pairs[i].0 == pairs[j].0);
    }
    assert forall|i: int| 0 <= i < variables.len() implies {
        &&& scan.values.contains_key((#[trigger] variables[i]).name@)
        &&& scan.values[variables[i].name@] == variables[i].value@
        &&& variables[i].exported == scan.exported.contains(variables[i].name@)
    } by {
        let name = pairs[i].0;
        assert(crate::variable::binds(pairs, name));
        let chosen = choose|c: int| 0 <= c < pairs.len() && (#[trigger] pairs[c]).0 == name;
        assert(pairs[chosen].0 == pairs[i].0);
    }
    assert forall|name: Seq<char>| scan.values.contains_key(name) implies exists|i: int|
        0 <= i < variables.len() && (#[trigger] variables[i]).name@ == name by {
        assert(crate::variable::binds(pairs, name));
        let c = choose|c: int| 0 <= c < pairs.len() && (#[trigger] pairs[c]).0 == name;
        assert(variables[c].name@ == name);
    }
}

} // verus!
