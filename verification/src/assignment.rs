//! Command lines as words: variable assignments, `export`, and lines that
//! are handed to the system's shell as they are.

use crate::ast::texts;
use crate::executor::joined;
use crate::path::other_than;
use crate::shell::{trim, trimmed};
use crate::text::{chars_of, lemma_run_len_unique, run_len, same_text, string_of};
use vstd::prelude::*;
use vstd::string::StringExecFns;

verus! {

/// What `shell_words::split` makes of a line: its words, with quotes and
/// backslashes taken out as a shell would, or `None` for a line with an
/// unmatched quote.
pub uninterp spec fn split_words(line: Seq<char>) -> Option<Seq<Seq<char>>>;

/// `shell_words::ParseError`, the error of a line with an unmatched quote. It
/// carries nothing.
#[verifier::external_type_specification]
#[verifier::external_body]
pub struct ExParseError(shell_words::ParseError);

/// `shell_words::split`: the words of `line`, as [`split_words`] names them.
#[verifier::external_body]
fn shell_split(line: &str) -> (words: Result<Vec<String>, shell_words::ParseError>)
    ensures
        match words {
            Ok(words) => split_words(line@) == Some(texts(words@)),
            Err(_) => split_words(line@) is None,
        },
{
    shell_words::split(line)
}

/// A text in which no `$` occurs.
pub open spec fn no_dollar(s: Seq<char>) -> bool {
    forall|i: int| 0 <= i < s.len() ==> #[trigger] s[i] != '$'
}

/// `shellexpand::env`: `value` with the variables of the environment
/// expanded, or `None` where a variable is not known. What the environment
/// holds is left open; a text without `$` comes back as it is.
#[verifier::external_body]
fn expand_environment(value: &str) -> (expanded: Option<String>)
    ensures
        no_dollar(value@) ==> expanded is Some && expanded->0@ == value@,
{
    shellexpand::env(value).ok().map(std::borrow::Cow::into_owned)
}

/// Why a line could not be planned.
#[derive(Debug, PartialEq, Eq, Clone, Copy, Structural)]
pub enum PlanError {
    /// A quote in the line is not closed.
    UnmatchedQuote,
    /// A value names a variable that the environment does not have.
    UnknownVariable,
}

/// One variable to bind.
#[derive(Debug)]
pub struct Assignment {
    pub name: String,
    pub value: String,
    /// Whether the line said `export`: the variable goes to the environment.
    /// Without it, it goes there only if the environment has it already.
    pub export: bool,
}

/// What to do with a line.
#[derive(Debug)]
pub enum LinePlan {
    /// The line has no words.
    Skip,
    /// Run another instance of this shell.
    NestedShell,
    /// Bind these variables, in this order.
    Assign(Vec<Assignment>),
    /// Hand this command line to the system's shell.
    Run(String),
}

/// The place of the first `=` in `s`; its length where there is none.
pub open spec fn equals_at(s: Seq<char>) -> int {
    run_len(s, other_than('=')) as int
}

/// The name and the value that `NAME=VALUE` defines, each without white
/// space at its ends; `None` for a text without `=`.
pub open spec fn definition_of(s: Seq<char>) -> Option<(Seq<char>, Seq<char>)> {
    if equals_at(s) < s.len() {
        Some((trimmed(s.take(equals_at(s))), trimmed(s.skip(equals_at(s) + 1))))
    } else {
        None
    }
}

pub open spec fn only(c: char) -> spec_fn(char) -> bool {
    |d: char| d == c
}

/// `s` without the characters `c` at its two ends.
pub open spec fn without(s: Seq<char>, c: char) -> Seq<char> {
    if run_len(s, only(c)) == s.len() {
        Seq::empty()
    } else {
        s.subrange(run_len(s, only(c)) as int, s.len() - run_len(s.reverse(), only(c)))
    }
}

/// A value without the double quotes, and then the single quotes, around it.
pub open spec fn unquoted(s: Seq<char>) -> Seq<char> {
    without(without(s, '"'), '\'')
}

/// The definitions among `words`, in order; words without `=` are passed
/// over.
pub open spec fn definitions(words: Seq<Seq<char>>) -> Seq<(Seq<char>, Seq<char>)>
    decreases words.len(),
{
    if words.len() == 0 {
        Seq::empty()
    } else {
        match definition_of(words.last()) {
            Some(definition) => definitions(words.drop_last()).push(definition),
            None => definitions(words.drop_last()),
        }
    }
}

/// The words of an assignment line that can define a variable: all of them,
/// or those after `export`.
pub open spec fn defining_words(words: Seq<Seq<char>>) -> Seq<Seq<char>> {
    if words.len() > 0 && words[0] == "export"@ {
        words.skip(1)
    } else {
        words
    }
}

/// Whether `assignments` bind what `wanted` defines, one for one: each has
/// the name, says whether `export` was given, and, where the value names no
/// variable of the environment, has the value without its quotes.
pub open spec fn assigned(
    assignments: Seq<Assignment>,
    wanted: Seq<(Seq<char>, Seq<char>)>,
    export: bool,
) -> bool {
    &&& assignments.len() == wanted.len()
    &&& forall|i: int|
        0 <= i < wanted.len() ==> {
            &&& (#[trigger] assignments[i]).name@ == wanted[i].0
            &&& assignments[i].export == export
            &&& no_dollar(wanted[i].1) ==> assignments[i].value@ == unquoted(wanted[i].1)
        }
}

/// What is made of the words of a line. No words: nothing. The shell's own
/// name: a nested shell. A first word with `=` in it, or `export`: the
/// definitions among the words, or those after `export`, are bound, each
/// value with the environment's variables expanded and its quotes taken off.
/// Any other line is run as it is, its words joined by blanks.
pub open spec fn plan_effect(
    words: Seq<Seq<char>>,
    shell_name: Seq<char>,
    plan: Result<LinePlan, PlanError>,
) -> bool {
    if words.len() == 0 {
        plan matches Ok(LinePlan::Skip)
    } else if words[0] == shell_name {
        plan matches Ok(LinePlan::NestedShell)
    } else if equals_at(words[0]) < words[0].len() || words[0] == "export"@ {
        let export = words[0] == "export"@;
        let wanted = definitions(defining_words(words));
        match plan {
            Ok(LinePlan::Assign(assignments)) => assigned(assignments@, wanted, export),
            Err(PlanError::UnknownVariable) => exists|i: int|
                0 <= i < wanted.len() && !no_dollar((#[trigger] wanted[i]).1),
            _ => false,
        }
    } else {
        plan matches Ok(LinePlan::Run(command)) && command@ == joined(words)
    }
}

/// The place of the first `=` in `chars`.
fn find_equals(chars: &Vec<char>) -> (at: usize)
    ensures
        at as int == equals_at(chars@),
        at <= chars.len(),
{
    let mut i: usize = 0;
    while i < chars.len() && chars[i] != '='
        invariant
            i <= chars.len(),
            forall|k: int| 0 <= k < i ==> other_than('=')(#[trigger] chars@[k]),
        decreases chars.len() - i,
    {
        i += 1;
    }
    proof {
        lemma_run_len_unique(chars@, other_than('='), i as nat);
    }
    i
}

/// The name and the value that `var_def` defines, if it has the form
/// `NAME=VALUE`.
pub fn parse_var_definition(var_def: &str) -> (definition: Option<(String, String)>)
    ensures
        match definition {
            Some(d) => definition_of(var_def@) == Some((d.0@, d.1@)),
            None => definition_of(var_def@) is None,
        },
{
    let chars = chars_of(var_def);
    let at = find_equals(&chars);
    if at == chars.len() {
        return None;
    }
    let name = string_of(&chars, 0, at);
    let value = string_of(&chars, at + 1, chars.len());
    assert(chars@.subrange(0, at as int) =~= chars@.take(at as int));
    assert(chars@.subrange(at + 1, chars.len() as int) =~= chars@.skip(at + 1));
    Some((trim(name.as_str()), trim(value.as_str())))
}

/// `value` without the characters `c` at its two ends.
pub fn strip(value: &str, c: char) -> (text: String)
    ensures
        text@ == without(value@, c),
{
    let chars = chars_of(value);
    let mut from: usize = 0;
    while from < chars.len() && chars[from] == c
        invariant
            from <= chars.len(),
            forall|k: int| 0 <= k < from ==> only(c)(#[trigger] chars@[k]),
        decreases chars.len() - from,
    {
        from += 1;
    }
    proof {
        lemma_run_len_unique(chars@, only(c), from as nat);
    }
    if from == chars.len() {
        return String::new();
    }
    let mut to: usize = chars.len();
    while to > from && chars[to - 1] == c
        invariant
            from <= to <= chars.len(),
            from < chars.len(),
            chars@[from as int] != c,
            forall|k: int| to <= k < chars.len() ==> #[trigger] chars@[k] == c,
        decreases to,
    {
        to -= 1;
    }
    proof {
        let r = chars@.reverse();
        let n = (chars.len() - to) as nat;
        assert forall|k: int| 0 <= k < n implies only(c)(#[trigger] r[k]) by {
            assert(r[k] == chars@[chars.len() - 1 - k]);
        }
        assert(r[n as int] == chars@[to - 1]);
        lemma_run_len_unique(r, only(c), n);
    }
    string_of(&chars, from, to)
}

/// A value as it is bound: `expanded`, which is the value with the
/// environment's variables expanded, without the quotes around it.
pub fn bound_value(expanded: &str) -> (value: String)
    ensures
        value@ == unquoted(expanded@),
{
    let inner = strip(expanded, '"');
    strip(inner.as_str(), '\'')
}

/// Plans a line that has been split into `words`.
pub fn plan_words(words: &Vec<String>, shell_name: &str) -> (plan: Result<LinePlan, PlanError>)
    ensures
        plan_effect(texts(words@), shell_name@, plan),
{
    if words.len() == 0 {
        return Ok(LinePlan::Skip);
    }
    let first = words[0].as_str();
    assert(texts(words@)[0] == first@);
    if same_text(first, shell_name) {
        return Ok(LinePlan::NestedShell);
    }
    let first_chars = chars_of(first);
    let export = same_text(first, "export");
    if find_equals(&first_chars) < first_chars.len() || export {
        let start: usize = if export {
            1
        } else {
            0
        };
        let ghost vars = defining_words(texts(words@));
        assert(vars =~= texts(words@).skip(start as int));
        let mut assignments: Vec<Assignment> = Vec::new();
        let mut i: usize = start;
        assert(vars.take(0) =~= Seq::<Seq<char>>::empty());
        while i < words.len()
            invariant
                start <= i <= words.len(),
                vars == defining_words(texts(words@)),
                vars.len() == words@.len() - start,
                words@.len() > 0,
                texts(words@)[0] != shell_name@,
                export == (texts(words@)[0] == "export"@),
                equals_at(texts(words@)[0]) < texts(words@)[0].len() || export,
                start == if export {
                    1usize
                } else {
                    0usize
                },
                assigned(assignments@, definitions(vars.take(i - start)), export),
            decreases words.len() - i,
        {
            let ghost before = vars.take(i - start);
            let ghost after = vars.take(i - start + 1);
            proof {
                assert(after.drop_last() =~= before);
                assert(vars =~= texts(words@).skip(start as int));
                assert(after.last() == words@[i as int]@);
            }
            match parse_var_definition(words[i].as_str()) {
                Some(definition) => {
                    let value = match expand_environment(definition.1.as_str()) {
                        Some(expanded) => bound_value(expanded.as_str()),
                        None => {
                            proof {
                                let all = definitions(vars);
                                lemma_definitions_prefix(vars, i - start + 1);
                                assert(definitions(after).last() == (
                                    definition.0@,
                                    definition.1@,
                                ));
                                assert(all[definitions(after).len() - 1] == definitions(
                                    after,
                                ).last());
                            }
                            return Err(PlanError::UnknownVariable);
                        },
                    };
                    assignments.push(Assignment { name: definition.0, value, export });
                },
                None => {},
            }
            i += 1;
        }
        assert(vars.take(words.len() - start) =~= vars);
        return Ok(LinePlan::Assign(assignments));
    }
    let mut command = String::new();
    let mut i: usize = 0;
    while i < words.len()
        invariant
            i <= words.len(),
            command@ == joined(texts(words@).take(i as int)),
        decreases words.len() - i,
    {
        let ghost parts = texts(words@).take(i + 1);
        assert(parts.drop_last() =~= texts(words@).take(i as int));
        assert(parts.last() == words@[i as int]@);
        if i > 0 {
            command.push(' ');
        }
        command.append(words[i].as_str());
        assert(command@ =~= joined(parts));
        i += 1;
    }
    assert(texts(words@).take(words.len() as int) =~= texts(words@));
    Ok(LinePlan::Run(command))
}

/// The definitions among the first `k` words are the first ones among all.
pub proof fn lemma_definitions_prefix(words: Seq<Seq<char>>, k: int)
    requires
        0 <= k <= words.len(),
    ensures
        definitions(words.take(k)).len() <= definitions(words).len(),
        forall|i: int|
            0 <= i < definitions(words.take(k)).len() ==> #[trigger] definitions(words)[i]
                == definitions(words.take(k))[i],
    decreases words.len() - k,
{
    if k < words.len() {
        lemma_definitions_prefix(words, k + 1);
        assert(words.take(k + 1).drop_last() =~= words.take(k));
    } else {
        assert(words.take(k) =~= words);
    }
}

/// Plans a line: splits it into words, as a shell would, and plans those.
pub fn plan_line(line: &str, shell_name: &str) -> (plan: Result<LinePlan, PlanError>)
    ensures
        match split_words(trimmed(line@)) {
            Some(words) => plan_effect(words, shell_name@, plan),
            None => plan == Err::<LinePlan, PlanError>(PlanError::UnmatchedQuote),
        },
{
    let text = trim(line);
    match shell_split(text.as_str()) {
        Ok(words) => plan_words(&words, shell_name),
        Err(_) => Err(PlanError::UnmatchedQuote),
    }
}

} // verus!
