//! The two commands, as functions from a record to what is to be written or
//! printed.

use vstd::prelude::*;
use vstd::string::StringExecFns;
use crate::counts::SentenceCountsData;
use crate::error::CounterError;
use crate::json::json_text;
use crate::model::{count_in, counted, lists, ordered_by_count, Pair};
use crate::render::{lines, lines_of, texts_of};

verus! {

/// Counts one more occurrence of a sentence.
#[derive(Debug)]
pub struct Add {
    pub sentence: String,
}

/// Lists the sentences by their count.
#[derive(Debug)]
pub struct Show {
    /// The highest count first, in place of the lowest.
    pub reverse: bool,
    /// Each sentence with its count.
    pub verbose: bool,
}

/// What an invocation asks for.
#[derive(Debug)]
pub enum SubCommand {
    Add(Add),
    Show(Show),
}

/// What is left to do once a command has run on the record.
#[derive(Debug)]
pub enum Action {
    /// Overwrite the file with this text.
    Persist(String),
    /// Print these lines, one after the other.
    Print(Vec<String>),
}

/// What stands behind the path of a file in the path of its lock file.
pub open spec fn lock_suffix() -> Seq<char> {
    ".lock"@
}

/// `text` is what the encoder writes for `m`, or the encoder's failure on `m`.
pub open spec fn encodes(encoded: Result<String, CounterError>, m: Map<Seq<char>, int>) -> bool {
    match encoded {
        Ok(text) => json_text(m) == Some(text@),
        Err(e) => e is Encode && json_text(m) is None,
    }
}

/// `out` lists `m` by count as `show_opt` asks: one line for each entry, the
/// lowest count first, or with `reverse` the highest.
pub open spec fn shows(out: Seq<String>, m: Map<Seq<char>, int>, show_opt: Show) -> bool {
    exists|rows: Seq<Pair>|
        lists(rows, m) && ordered_by_count(rows, show_opt.reverse) && texts_of(out) == lines_of(
            rows,
            show_opt.verbose,
        )
}

/// The path of the file that is locked while the file at `dest_file` is read
/// and written: `dest_file` with `.lock` behind it.
pub fn lock_file_path(dest_file: &str) -> (path: String)
    ensures
        path@ == dest_file@ + lock_suffix(),
{
    let mut path = String::from_str(dest_file);
    path.append(".lock");
    path
}

/// Counts the sentence of `add_opt` in `data` and gives the text to persist:
/// the JSON text of the record after the addition.
pub fn add(add_opt: Add, data: &mut SentenceCountsData) -> (encoded: Result<String, CounterError>)
    requires
        count_in(old(data)@, add_opt.sentence@) < i32::MAX,
    ensures
        final(data)@ == counted(old(data)@, add_opt.sentence@),
        encodes(encoded, final(data)@),
{
    data.add_sentence(add_opt.sentence);
    data.encode()
}

/// The lines to print for `data`: its entries by count, the lowest first or
/// with `reverse` the highest, each as its sentence or with `verbose` as its
/// sentence, a space and its count.
pub fn show(show_opt: Show, data: &SentenceCountsData) -> (out: Vec<String>)
    ensures
        shows(out@, data@, show_opt),
{
    let rows = data.sorted_vec(show_opt.reverse);
    lines(&rows, show_opt.verbose)
}

/// Runs one command on the record that was loaded and says what is left to
/// do: after an addition, persist the new text; for a listing, print its
/// lines, with the record as it was.
pub fn execute(subcmd: SubCommand, data: &mut SentenceCountsData) -> (done: Result<
    Action,
    CounterError,
>)
    requires
        subcmd matches SubCommand::Add(add_opt) ==> count_in(old(data)@, add_opt.sentence@)
            < i32::MAX,
    ensures
        match subcmd {
            SubCommand::Add(add_opt) => {
                &&& final(data)@ == counted(old(data)@, add_opt.sentence@)
                &&& match done {
                    Ok(action) => action matches Action::Persist(text) && json_text(final(data)@)
                        == Some(text@),
                    Err(e) => e is Encode && json_text(final(data)@) is None,
                }
            },
            SubCommand::Show(show_opt) => {
                &&& final(data)@ == old(data)@
                &&& done matches Ok(action) && action matches Action::Print(out) && shows(
                    out@,
                    old(data)@,
                    show_opt,
                )
            },
        },
{
    match subcmd {
        SubCommand::Add(add_opt) => {
            match self::add(add_opt, data) {
                Ok(text) => Ok(Action::Persist(text)),
                Err(e) => Err(e),
            }
        },
        SubCommand::Show(show_opt) => Ok(Action::Print(self::show(show_opt, &*data))),
    }
}

} // verus!
